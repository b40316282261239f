//! Keys for clients: where the key of an enclave's model is asked for.

use vstd::prelude::*;

use crate::json::fields_of;
use crate::json::lemma_object_view;
use crate::json::Json;
use crate::json::JsonValue;
use crate::nearai_models::default_endpoint;
use crate::nearai_models::get_direct_endpoint;
use crate::state::DynamicModelInfo;
use crate::state::ModelFacts;
use crate::table;
use crate::table::entries;
use crate::table::entry_of;
use crate::text;
use crate::text::unicode_lowercase;
use crate::text::without_prefixes;
use crate::text::without_suffixes;

verus! {

/// The model that a path for a key names.
pub open spec fn model_in(path: Seq<char>) -> Seq<char> {
    without_suffixes(without_prefixes(path, "/v1/models/nearai/"@), "/key"@)
}

/// Where a model's enclave is: where the provider says, else where such enclaves are.
pub open spec fn enclave_of(model: Seq<char>, models: Option<Seq<(Seq<char>, ModelFacts)>>) -> Seq<
    char,
> {
    match models {
        Some(m) => match entry_of(m, unicode_lowercase(model)) {
            Some(facts) => match facts.endpoint {
                Some(e) => e,
                None => default_endpoint(model),
            },
            None => default_endpoint(model),
        },
        None => default_endpoint(model),
    }
}

/// Where the key of a model is asked for: with the client's own query, where it has one.
pub open spec fn key_address(
    path: Seq<char>,
    query: Seq<char>,
    models: Option<Seq<(Seq<char>, ModelFacts)>>,
) -> Seq<char> {
    enclave_of(model_in(path), models) + "/v1/attestation/report?"@ + (if query.len() == 0 {
        "signing_algo=ed25519&include_tls_fingerprint=true"@
    } else {
        query
    })
}

/// What is known of the models of a provider, if it is there.
pub open spec fn known_in(models: Option<&Vec<(String, DynamicModelInfo)>>) -> Option<
    Seq<(Seq<char>, ModelFacts)>,
> {
    match models {
        Some(m) => Some(entries(m@)),
        None => None,
    }
}

/// Decides where the key of a model is asked for. `models` are those of the provider, if it is
/// there.
pub fn near_key_url(
    path: &str,
    query: &str,
    models: Option<&Vec<(String, DynamicModelInfo)>>,
) -> (r: String)
    ensures
        r@ == key_address(path@, query@, known_in(models)),
{
    proof {
        reveal_strlit("/v1/models/nearai/");
        reveal_strlit("/key");
    }
    let bare = text::trim_start_matches(path, "/v1/models/nearai/");
    let model = text::trim_end_matches(bare.as_str(), "/key");
    let named = match models {
        Some(m) => {
            let lower = model.as_str().to_lowercase();
            match table::lookup(m, lower.as_str()) {
                Some(info) => match &info.direct_endpoint {
                    Some(e) => Some(e.clone()),
                    None => None,
                },
                None => None,
            }
        },
        None => None,
    };
    let direct = match named {
        Some(e) => e,
        None => get_direct_endpoint(model.as_str()),
    };
    if query.is_empty() {
        text::cat3(
            direct.as_str(),
            "/v1/attestation/report?",
            "signing_algo=ed25519&include_tls_fingerprint=true",
        )
    } else {
        text::cat3(direct.as_str(), "/v1/attestation/report?", query)
    }
}

/// An error, told in one word.
pub open spec fn plain_error_value(message: Seq<char>) -> JsonValue {
    JsonValue::Obj(seq![("error"@, JsonValue::Str(message))])
}

/// Tells an error in one word.
pub fn plain_error(message: &str) -> (r: Json)
    ensures
        r@ == plain_error_value(message@),
{
    let mut out: Vec<(String, Json)> = Vec::new();
    out.push(("error".to_string(), Json::Str(message.to_string())));
    proof {
        lemma_object_view(out);
        assert(fields_of(out@) =~= seq![("error"@, JsonValue::Str(message@))]);
    }
    Json::Obj(out)
}

} // verus!
