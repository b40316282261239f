//! What is known of providers and their models while the server runs.

use vstd::prelude::*;

use crate::chutes::CachedChutesNonces;
use crate::health::ProviderHealthState;
use crate::json::Json;
use crate::json::JsonValue;

verus! {

/// The name and the certificate of the onion service.
pub struct OnionData {
    pub onion_domain: String,
    pub onion_https_cert: String,
}

impl OnionData {
    /// Nothing is known yet.
    pub fn new() -> (r: Self)
        ensures
            r.onion_domain@ == ""@,
            r.onion_https_cert@ == ""@,
    {
        OnionData { onion_domain: "".to_string(), onion_https_cert: "".to_string() }
    }
}

/// The public key of a model's enclave, which is trusted until a time.
#[derive(Debug, Clone, Copy)]
pub struct CachedModelKey {
    pub expires_at: u64,
    pub x25519_bytes: [u8; 32],
}

impl DeepView for CachedModelKey {
    type V = (u64, Seq<u8>);

    open spec fn deep_view(&self) -> (u64, Seq<u8>) {
        (self.expires_at, self.x25519_bytes@)
    }
}

/// What a provider says of one of its models. The prices, in dollars for a million tokens,
/// are held by the bits of their doubles.
pub struct DynamicModelInfo {
    pub upstream_model_name: String,
    pub name: String,
    pub price_input_1m: u64,
    pub price_output_1m: u64,
    pub context_length: u64,
    pub max_completion_tokens: u64,
    pub supported_sampling_parameters: Json,
    pub supported_features: Json,
    pub direct_endpoint: Option<String>,
}

/// What is known of a model.
#[verifier::ext_equal]
pub struct ModelFacts {
    pub upstream: Seq<char>,
    pub name: Seq<char>,
    pub price_input: u64,
    pub price_output: u64,
    pub context: u64,
    pub completion: u64,
    pub sampling: JsonValue,
    pub features: JsonValue,
    pub endpoint: Option<Seq<char>>,
}

impl DeepView for DynamicModelInfo {
    type V = ModelFacts;

    open spec fn deep_view(&self) -> ModelFacts {
        ModelFacts {
            upstream: self.upstream_model_name@,
            name: self.name@,
            price_input: self.price_input_1m,
            price_output: self.price_output_1m,
            context: self.context_length,
            completion: self.max_completion_tokens,
            sampling: self.supported_sampling_parameters@,
            features: self.supported_features@,
            endpoint: match self.direct_endpoint {
                Some(e) => Some(e@),
                None => None,
            },
        }
    }
}

impl DynamicModelInfo {
    /// A copy that says the same.
    pub fn copy(&self) -> (r: Self)
        ensures
            r.deep_view() == self.deep_view(),
    {
        let endpoint = match &self.direct_endpoint {
            Some(e) => Some(e.clone()),
            None => None,
        };
        DynamicModelInfo {
            upstream_model_name: self.upstream_model_name.clone(),
            name: self.name.clone(),
            price_input_1m: self.price_input_1m,
            price_output_1m: self.price_output_1m,
            context_length: self.context_length,
            max_completion_tokens: self.max_completion_tokens,
            supported_sampling_parameters: self.supported_sampling_parameters.copy(),
            supported_features: self.supported_features.copy(),
            direct_endpoint: endpoint,
        }
    }
}

/// What is known of a provider that gives out nonces: which chute serves a model, which
/// instances are attested until when, and the nonces left of each chute.
pub struct ChutesState {
    pub chute_id_cache: Vec<(String, (String, u64))>,
    pub verified_instances: Vec<(String, u64)>,
    pub nonce_pools: Vec<(String, CachedChutesNonces)>,
}

impl Default for ChutesState {
    fn default() -> (r: Self)
        ensures
            r.chute_id_cache@.len() == 0,
            r.verified_instances@.len() == 0,
            r.nonce_pools@.len() == 0,
    {
        ChutesState {
            chute_id_cache: Vec::new(),
            verified_instances: Vec::new(),
            nonce_pools: Vec::new(),
        }
    }
}

/// What changes of a provider while the server runs.
pub struct ProviderDynamicState {
    pub health: ProviderHealthState,
    pub cached_model_keys: Vec<(String, CachedModelKey)>,
    pub dynamic_models: Vec<(String, DynamicModelInfo)>,
    pub chutes_e2ee: ChutesState,
}

impl Default for ProviderDynamicState {
    fn default() -> (r: Self)
        ensures
            r.health == crate::health::fresh_health(),
            r.cached_model_keys@.len() == 0,
            r.dynamic_models@.len() == 0,
            r.chutes_e2ee.chute_id_cache@.len() == 0,
            r.chutes_e2ee.verified_instances@.len() == 0,
            r.chutes_e2ee.nonce_pools@.len() == 0,
    {
        ProviderDynamicState {
            health: ProviderHealthState::default(),
            cached_model_keys: Vec::new(),
            dynamic_models: Vec::new(),
            chutes_e2ee: ChutesState::default(),
        }
    }
}

/// A provider: where it is, what it promises, and how it is reached.
pub struct ProviderConfig {
    pub id: String,
    pub name: String,
    pub description: String,
    pub legal_location: String,
    pub data_processing_location: String,
    pub location: String,
    pub endpoint: String,
    pub api_key: String,
    pub privacy_rating: u8,
    /// It keeps no data.
    pub zdr: bool,
    /// It shares no data.
    pub zds: bool,
    /// It computes in an enclave.
    pub tee: bool,
}

} // verus!
