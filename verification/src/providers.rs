//! The providers that the server speaks to.

use vstd::prelude::*;

use crate::selection::dialect_of;
use crate::state::ProviderConfig;
use crate::text;

verus! {

/// The keys under which the providers know the server; empty where there is none.
pub struct ProviderKeys {
    pub near_ai: String,
    pub chutes: String,
    pub redpill: String,
    pub infomaniak: String,
    pub tinfoil: String,
}

/// The keys under which the providers know the server.
pub struct KeyTexts {
    pub near_ai: Seq<char>,
    pub chutes: Seq<char>,
    pub redpill: Seq<char>,
    pub infomaniak: Seq<char>,
    pub tinfoil: Seq<char>,
}

impl ProviderKeys {
    /// What the keys say.
    pub open spec fn view(&self) -> KeyTexts {
        KeyTexts {
            near_ai: self.near_ai@,
            chutes: self.chutes@,
            redpill: self.redpill@,
            infomaniak: self.infomaniak@,
            tinfoil: self.tinfoil@,
        }
    }
}

/// What is known of a provider.
#[verifier::ext_equal]
pub struct ProviderFacts {
    pub id: Seq<char>,
    pub name: Seq<char>,
    pub description: Seq<char>,
    pub country: Seq<char>,
    pub location: Seq<char>,
    pub endpoint: Seq<char>,
    pub api_key: Seq<char>,
    pub rating: u8,
    pub keeps_nothing: bool,
    pub shares_nothing: bool,
    pub enclave: bool,
}

/// Whether a configuration is that of a provider, which processes data where it is
/// incorporated.
pub open spec fn describes(p: ProviderConfig, f: ProviderFacts) -> bool {
    &&& p.id@ == f.id
    &&& p.name@ == f.name
    &&& p.description@ == f.description
    &&& p.legal_location@ == f.country
    &&& p.data_processing_location@ == f.country
    &&& p.location@ == f.location
    &&& p.endpoint@ == f.endpoint
    &&& p.api_key@ == f.api_key
    &&& p.privacy_rating == f.rating
    &&& p.zdr == f.keeps_nothing
    &&& p.zds == f.shares_nothing
    &&& p.tee == f.enclave
}

/// The providers that the server speaks to. `product` is the product under which Infomaniak
/// knows the server.
pub open spec fn providers_of(keys: KeyTexts, product: Seq<char>) -> Seq<ProviderFacts> {
    seq![
        ProviderFacts {
            id: "near-ai"@,
            name: "Near AI"@,
            description: "A powerhouse for decentralized, zero-trust inference. Absolute cryptographically verifiable privacy combined with blazing-fast routing."@,
            country: "US"@,
            location: "us"@,
            endpoint: "https://cloud-api.near.ai/v1/chat/completions"@,
            api_key: keys.near_ai,
            rating: 5,
            keeps_nothing: true,
            shares_nothing: true,
            enclave: true,
        },
        ProviderFacts {
            id: "chutes"@,
            name: "Chutes"@,
            description: "Pioneers of E2EE payload routing. Chutes allows you to encrypt prompts directly to their hardware enclaves, blinding us completely."@,
            country: "US"@,
            location: "us"@,
            endpoint: "https://llm.chutes.ai/v1/chat/completions"@,
            api_key: keys.chutes,
            rating: 5,
            keeps_nothing: true,
            shares_nothing: true,
            enclave: true,
        },
        ProviderFacts {
            id: "redpill"@,
            name: "RedPill"@,
            description: "A decentralized infrastructure layer routing prompts anonymously across diverse, hardened hardware pools with dynamic failovers."@,
            country: "US"@,
            location: "us"@,
            endpoint: "https://api.redpill.ai/v1/chat/completions"@,
            api_key: keys.redpill,
            rating: 4,
            keeps_nothing: true,
            shares_nothing: true,
            enclave: true,
        },
        ProviderFacts {
            id: "infomaniak"@,
            name: "Infomaniak"@,
            description: "The Swiss fortress. While they lack hardware-level TEEs, they operate under the strictest legal privacy frameworks on the planet."@,
            country: "CH"@,
            location: "ch"@,
            endpoint: "https://api.infomaniak.com/2/ai/"@ + product + "/openai/v1/chat/completions"@,
            api_key: keys.infomaniak,
            rating: 4,
            keeps_nothing: true,
            shares_nothing: true,
            enclave: false,
        },
        ProviderFacts {
            id: "tinfoil"@,
            name: "Tinfoil"@,
            description: "Privacy-first compute networks with attestation guarantees. Direct, shielded access to state-of-the-art models within AMD SEV enclaves."@,
            country: "US"@,
            location: "us"@,
            endpoint: "https://inference.tinfoil.sh/v1/chat/completions"@,
            api_key: keys.tinfoil,
            rating: 5,
            keeps_nothing: true,
            shares_nothing: true,
            enclave: true,
        },
    ]
}

fn provider(
    id: &str,
    name: &str,
    description: &str,
    country: &str,
    location: &str,
    endpoint: String,
    api_key: String,
    rating: u8,
    enclave: bool,
) -> (r: ProviderConfig)
    ensures
        describes(
            r,
            (ProviderFacts {
                id: id@,
                name: name@,
                description: description@,
                country: country@,
                location: location@,
                endpoint: endpoint@,
                api_key: api_key@,
                rating,
                keeps_nothing: true,
                shares_nothing: true,
                enclave,
            }),
        ),
{
    ProviderConfig {
        id: id.to_string(),
        name: name.to_string(),
        description: description.to_string(),
        legal_location: country.to_string(),
        data_processing_location: country.to_string(),
        location: location.to_string(),
        endpoint,
        api_key,
        privacy_rating: rating,
        zdr: true,
        zds: true,
        tee: enclave,
    }
}

/// The providers that the server speaks to.
pub fn known_providers(keys: &ProviderKeys, infomaniak_product_id: &str) -> (r: Vec<ProviderConfig>)
    ensures
        r@.len() == providers_of(keys@, infomaniak_product_id@).len(),
        forall|i: int|
            0 <= i < r@.len() ==> describes(
                #[trigger] r@[i],
                providers_of(keys@, infomaniak_product_id@)[i],
            ),
{
    let infomaniak_endpoint = text::cat3(
        "https://api.infomaniak.com/2/ai/",
        infomaniak_product_id,
        "/openai/v1/chat/completions",
    );
    let mut out: Vec<ProviderConfig> = Vec::new();
    out.push(
        provider(
            "near-ai",
            "Near AI",
            "A powerhouse for decentralized, zero-trust inference. Absolute cryptographically verifiable privacy combined with blazing-fast routing.",
            "US",
            "us",
            "https://cloud-api.near.ai/v1/chat/completions".to_string(),
            keys.near_ai.clone(),
            5,
            true,
        ),
    );
    out.push(
        provider(
            "chutes",
            "Chutes",
            "Pioneers of E2EE payload routing. Chutes allows you to encrypt prompts directly to their hardware enclaves, blinding us completely.",
            "US",
            "us",
            "https://llm.chutes.ai/v1/chat/completions".to_string(),
            keys.chutes.clone(),
            5,
            true,
        ),
    );
    out.push(
        provider(
            "redpill",
            "RedPill",
            "A decentralized infrastructure layer routing prompts anonymously across diverse, hardened hardware pools with dynamic failovers.",
            "US",
            "us",
            "https://api.redpill.ai/v1/chat/completions".to_string(),
            keys.redpill.clone(),
            4,
            true,
        ),
    );
    out.push(
        provider(
            "infomaniak",
            "Infomaniak",
            "The Swiss fortress. While they lack hardware-level TEEs, they operate under the strictest legal privacy frameworks on the planet.",
            "CH",
            "ch",
            infomaniak_endpoint,
            keys.infomaniak.clone(),
            4,
            false,
        ),
    );
    out.push(
        provider(
            "tinfoil",
            "Tinfoil",
            "Privacy-first compute networks with attestation guarantees. Direct, shielded access to state-of-the-art models within AMD SEV enclaves.",
            "US",
            "us",
            "https://inference.tinfoil.sh/v1/chat/completions".to_string(),
            keys.tinfoil.clone(),
            5,
            true,
        ),
    );
    out
}

/// Every provider is one that the server knows how to speak to, and no two have one name.
pub proof fn law_every_provider_is_spoken_to(keys: KeyTexts, product: Seq<char>)
    ensures
        forall|i: int|
            0 <= i < providers_of(keys, product).len() ==> dialect_of(
                (#[trigger] providers_of(keys, product)[i]).id,
            ) is Some,
        forall|i: int, j: int|
            0 <= i < j < providers_of(keys, product).len() ==> (#[trigger] providers_of(
                keys,
                product,
            )[i]).id != (#[trigger] providers_of(keys, product)[j]).id,
{
    reveal_strlit("near-ai");
    reveal_strlit("chutes");
    reveal_strlit("redpill");
    reveal_strlit("infomaniak");
    reveal_strlit("tinfoil");
    let names = seq!["near-ai"@, "chutes"@, "redpill"@, "infomaniak"@, "tinfoil"@];
    assert(names[0][0] == 'n' && names[1][0] == 'c' && names[2][0] == 'r' && names[3][0] == 'i'
        && names[4][0] == 't');
    let all = providers_of(keys, product);
    assert forall|i: int, j: int| 0 <= i < j < all.len() implies (#[trigger] all[i]).id != (
    #[trigger] all[j]).id by {
        assert(all[i].id == names[i] && all[j].id == names[j]);
        assert(names[i][0] != names[j][0]);
    }
}

} // verus!
