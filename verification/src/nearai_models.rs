//! The models of Near AI, and the servers that they run on.

use vstd::prelude::*;

use crate::catalog::collected;
use crate::catalog::copy_at_or;
use crate::catalog::drop_stop;
use crate::catalog::enclave_name;
use crate::catalog::holds_only_word;
use crate::catalog::name_of_enclave_model;
use crate::catalog::number_at_or;
use crate::catalog::number_or;
use crate::catalog::only_word;
use crate::catalog::value_or;
use crate::catalog::without_stop;
use crate::catalog::words_json;
use crate::catalog::words_value;
use crate::json::elements_at;
use crate::json::fields_of;
use crate::json::lemma_array_view;
use crate::json::lemma_object_view;
use crate::json::text_at;
use crate::json::values_of;
use crate::json::Json;
use crate::json::JsonValue;
use crate::primitives::hex_encode;
use crate::primitives::hex_of;
use crate::state::DynamicModelInfo;
use crate::state::ModelFacts;
use crate::table;
use crate::table::entries;
use crate::table::entry_of;
use crate::table::with_entry;
use crate::text;
use crate::text::has_text;
use crate::text::replaced;
use crate::text::unicode_lowercase;
use crate::text::without_prefixes;
use crate::text::without_suffixes;

verus! {

// ---------------------------------------------------------------------------
// Servers
// ---------------------------------------------------------------------------

/// Where a model runs that no list names.
pub open spec fn default_endpoint(model: Seq<char>) -> Seq<char> {
    "https://"@ + replaced(unicode_lowercase(model), "."@, "-"@) + ".completions.near.ai"@
}

/// Where a model runs that no list names.
pub fn get_direct_endpoint(frontend_requested_model: &str) -> (r: String)
    ensures
        r@ == default_endpoint(frontend_requested_model@),
{
    let lower = frontend_requested_model.to_lowercase();
    proof {
        reveal_strlit(".");
    }
    let dashed = text::replace(lower.as_str(), ".", "-");
    text::cat3("https://", dashed.as_str(), ".completions.near.ai")
}

/// The server that an address names.
pub open spec fn server_of(url: Seq<char>) -> Seq<char> {
    without_suffixes(without_prefixes(url, "https://"@), "/"@)
}

/// The server that an address names.
pub fn domain_of(url: &str) -> (r: String)
    ensures
        r@ == server_of(url@),
{
    proof {
        reveal_strlit("https://");
        reveal_strlit("/");
    }
    let bare = text::trim_start_matches(url, "https://");
    text::trim_end_matches(bare.as_str(), "/")
}

/// Where the attestation of a server is had, for a nonce.
pub fn attestation_url(direct_endpoint: &str, nonce: &[u8; 32]) -> (r: String)
    ensures
        r@ == direct_endpoint@
            + "/v1/attestation/report?signing_algo=ed25519&include_tls_fingerprint=true&nonce="@
            + hex_of(nonce@),
{
    let digits = hex_encode(nonce.as_slice());
    text::cat3(
        direct_endpoint,
        "/v1/attestation/report?signing_algo=ed25519&include_tls_fingerprint=true&nonce=",
        digits.as_str(),
    )
}

/// The servers that are known without asking, each with its model.
pub open spec fn known_servers() -> Seq<(Seq<char>, Seq<char>)> {
    seq![
        ("flux2-klein.completions.near.ai"@, "black-forest-labs/FLUX.2-klein-4B"@),
        ("gemma-4-31b.completions.near.ai"@, "google/gemma-4-31B-it"@),
        ("glm-5-1.completions.near.ai"@, "zai-org/GLM-5.1-FP8"@),
        ("glm-5.completions.near.ai"@, "zai-org/GLM-5-FP8"@),
        ("gpt-oss-120b.completions.near.ai"@, "openai/gpt-oss-120b"@),
        ("privacy-filter.completions.near.ai"@, "openai/privacy-filter"@),
        ("qwen3-30b.completions.near.ai"@, "Qwen/Qwen3-30B-A3B-Instruct-2507"@),
        ("qwen3-6-35b.completions.near.ai"@, "Qwen/Qwen3.6-35B-A3B-FP8"@),
        ("qwen3-embedding.completions.near.ai"@, "Qwen/Qwen3-Embedding-0.6B"@),
        ("qwen3-reranker.completions.near.ai"@, "Qwen/Qwen3-Reranker-0.6B"@),
        ("qwen3-vl-30b.completions.near.ai"@, "Qwen/Qwen3-VL-30B-A3B-Instruct"@),
        ("qwen35-122b.completions.near.ai"@, "Qwen/Qwen3.5-122B-A10B"@),
        ("whisper-large-v3.completions.near.ai"@, "openai/whisper-large-v3"@),
    ]
}

/// One server, as the list of servers describes it.
pub open spec fn server_value(domain: Seq<char>, model: Seq<char>) -> JsonValue {
    JsonValue::Obj(
        seq![
            ("domain"@, JsonValue::Str(domain)),
            ("models"@, JsonValue::Arr(seq![JsonValue::Str(model)])),
        ],
    )
}

/// The list of the servers that are known without asking.
pub open spec fn known_servers_value() -> JsonValue {
    JsonValue::Obj(
        seq![
            (
                "endpoints"@,
                JsonValue::Arr(
                    known_servers().map_values(|s: (Seq<char>, Seq<char>)| server_value(s.0, s.1)),
                ),
            ),
        ],
    )
}

fn server_json(domain: &str, model: &str) -> (r: Json)
    ensures
        r@ == server_value(domain@, model@),
{
    let models: Vec<Json> = vec![Json::Str(model.to_string())];
    proof {
        lemma_array_view(models);
        assert(values_of(models@) =~= seq![JsonValue::Str(model@)]);
    }
    let mut fields: Vec<(String, Json)> = Vec::new();
    fields.push(("domain".to_string(), Json::Str(domain.to_string())));
    fields.push(("models".to_string(), Json::Arr(models)));
    proof {
        lemma_object_view(fields);
        assert(fields_of(fields@) =~= seq![
            ("domain"@, JsonValue::Str(domain@)),
            ("models"@, JsonValue::Arr(seq![JsonValue::Str(model@)])),
        ]);
    }
    Json::Obj(fields)
}

/// The list of the servers that are known without asking.
pub fn get_hardcoded_endpoints() -> (r: Json)
    ensures
        r@ == known_servers_value(),
{
    let known: Vec<(&'static str, &'static str)> = vec![
        ("flux2-klein.completions.near.ai", "black-forest-labs/FLUX.2-klein-4B"),
        ("gemma-4-31b.completions.near.ai", "google/gemma-4-31B-it"),
        ("glm-5-1.completions.near.ai", "zai-org/GLM-5.1-FP8"),
        ("glm-5.completions.near.ai", "zai-org/GLM-5-FP8"),
        ("gpt-oss-120b.completions.near.ai", "openai/gpt-oss-120b"),
        ("privacy-filter.completions.near.ai", "openai/privacy-filter"),
        ("qwen3-30b.completions.near.ai", "Qwen/Qwen3-30B-A3B-Instruct-2507"),
        ("qwen3-6-35b.completions.near.ai", "Qwen/Qwen3.6-35B-A3B-FP8"),
        ("qwen3-embedding.completions.near.ai", "Qwen/Qwen3-Embedding-0.6B"),
        ("qwen3-reranker.completions.near.ai", "Qwen/Qwen3-Reranker-0.6B"),
        ("qwen3-vl-30b.completions.near.ai", "Qwen/Qwen3-VL-30B-A3B-Instruct"),
        ("qwen35-122b.completions.near.ai", "Qwen/Qwen3.5-122B-A10B"),
        ("whisper-large-v3.completions.near.ai", "openai/whisper-large-v3"),
    ];
    proof {
        assert(known@.map_values(|s: (&'static str, &'static str)| (s.0@, s.1@))
            =~= known_servers());
    }
    let mut list: Vec<Json> = Vec::new();
    let mut i: usize = 0;
    while i < known.len()
        invariant
            i <= known@.len(),
            list@.len() == i,
            forall|j: int|
                0 <= j < i ==> (#[trigger] list@[j])@ == server_value(known@[j].0@, known@[j].1@),
        decreases known@.len() - i,
    {
        list.push(server_json(known[i].0, known[i].1));
        i = i + 1;
    }
    let ghost listed = known_servers().map_values(
        |s: (Seq<char>, Seq<char>)| server_value(s.0, s.1),
    );
    proof {
        lemma_array_view(list);
        assert forall|j: int| 0 <= j < known_servers().len() implies values_of(list@)[j]
            == listed[j] by {
            assert(known@.map_values(|s: (&'static str, &'static str)| (s.0@, s.1@))[j]
                == known_servers()[j]);
        }
        assert(values_of(list@) =~= listed);
    }
    let mut fields: Vec<(String, Json)> = Vec::new();
    fields.push(("endpoints".to_string(), Json::Arr(list)));
    proof {
        lemma_object_view(fields);
        assert(fields_of(fields@) =~= seq![("endpoints"@, JsonValue::Arr(listed))]);
    }
    Json::Obj(fields)
}

/// The servers of models once those of one more server are known.
pub open spec fn with_models(
    servers: Seq<(Seq<char>, Seq<char>)>,
    models: Seq<JsonValue>,
    domain: Seq<char>,
) -> Seq<(Seq<char>, Seq<char>)>
    decreases models.len(),
{
    if models.len() == 0 {
        servers
    } else {
        let before = with_models(servers, models.drop_last(), domain);
        match models.last().text() {
            Some(m) => with_entry(before, m, domain),
            None => before,
        }
    }
}

/// The servers of models once one more entry of the list is known.
pub open spec fn with_server(servers: Seq<(Seq<char>, Seq<char>)>, entry: JsonValue) -> Seq<
    (Seq<char>, Seq<char>),
> {
    match elements_at(entry, "models"@) {
        Some(models) => with_models(
            servers,
            models,
            match text_at(entry, "domain"@) {
                Some(d) => d,
                None => ""@,
            },
        ),
        None => servers,
    }
}

/// The server of each model, by a list of servers.
pub open spec fn servers_in(list: Seq<JsonValue>) -> Seq<(Seq<char>, Seq<char>)>
    decreases list.len(),
{
    if list.len() == 0 {
        seq![]
    } else {
        with_server(servers_in(list.drop_last()), list.last())
    }
}

/// The server of each model, by the answer that holds the list of servers.
pub open spec fn servers_of(mapping: JsonValue) -> Seq<(Seq<char>, Seq<char>)> {
    match elements_at(mapping, "endpoints"@) {
        Some(list) => servers_in(list),
        None => seq![],
    }
}

fn add_server(servers: &mut Vec<(String, String)>, entry: &Json)
    ensures
        entries(final(servers)@) == with_server(entries(old(servers)@), entry@),
{
    let models = match entry.elements_at("models") {
        Some(m) => m,
        None => {
            return;
        },
    };
    let domain = match entry.text_at("domain") {
        Some(d) => d.as_str(),
        None => "",
    };
    let ghost all = values_of(models@);
    let ghost start = entries(servers@);
    let mut i: usize = 0;
    proof {
        assert(all.take(0) =~= seq![]);
    }
    while i < models.len()
        invariant
            i <= models@.len(),
            all == values_of(models@),
            entries(servers@) == with_models(start, all.take(i as int), domain@),
        decreases models@.len() - i,
    {
        proof {
            assert(all.take(i + 1).drop_last() =~= all.take(i as int));
            assert(all.take(i + 1).last() == models@[i as int]@);
        }
        if let Some(m) = models[i].as_str() {
            table::insert(servers, m.as_str(), domain.to_string());
        }
        i = i + 1;
    }
    proof {
        assert(all.take(all.len() as int) =~= all);
    }
}

/// Reads the server of each model out of the answer that holds the list of servers.
pub fn read_servers(mapping: &Json) -> (r: Vec<(String, String)>)
    ensures
        entries(r@) == servers_of(mapping@),
{
    let mut out: Vec<(String, String)> = Vec::new();
    proof {
        assert(entries(out@) =~= seq![]);
    }
    let list = match mapping.elements_at("endpoints") {
        Some(l) => l,
        None => {
            return out;
        },
    };
    let ghost all = values_of(list@);
    let mut i: usize = 0;
    proof {
        assert(all.take(0) =~= seq![]);
    }
    while i < list.len()
        invariant
            i <= list@.len(),
            all == values_of(list@),
            entries(out@) == servers_in(all.take(i as int)),
        decreases list@.len() - i,
    {
        proof {
            assert(all.take(i + 1).drop_last() =~= all.take(i as int));
            assert(all.take(i + 1).last() == list@[i as int]@);
        }
        add_server(&mut out, &list[i]);
        i = i + 1;
    }
    proof {
        assert(all.take(all.len() as int) =~= all);
    }
    out
}

// ---------------------------------------------------------------------------
// Models
// ---------------------------------------------------------------------------

/// What a model takes or gives, under either of two names.
pub open spec fn modalities(v: JsonValue, key: Seq<char>, inner: Seq<char>) -> Option<
    Seq<JsonValue>,
> {
    let found = match v.get(key) {
        Some(m) => Some(m),
        None => match v.get("architecture"@) {
            Some(a) => a.get(inner),
            None => None,
        },
    };
    match found {
        Some(m) => m.elements(),
        None => None,
    }
}

/// Whether a model takes and gives text only.
pub open spec fn is_text_only(v: JsonValue) -> bool {
    (modalities(v, "output_modalities"@, "outputModalities"@) matches Some(m) && only_word(
        m,
        "text"@,
    )) && (modalities(v, "input_modalities"@, "inputModalities"@) matches Some(m) && only_word(
        m,
        "text"@,
    ))
}

/// A number that the best provider of a model states, or else the model itself, or else what
/// stands for it.
pub open spec fn stated(v: JsonValue, own: Seq<char>, top: Seq<char>, otherwise: u64) -> u64 {
    match v.get("top_provider"@) {
        Some(t) => number_or(t, top, number_or(v, own, otherwise)),
        None => number_or(v, own, otherwise),
    }
}

/// The sampling parameters of a model that states none.
pub open spec fn default_sampling() -> Seq<Seq<char>> {
    seq![
        "temperature"@,
        "top_p"@,
        "top_k"@,
        "frequency_penalty"@,
        "presence_penalty"@,
        "max_tokens"@,
        "seed"@,
    ]
}

/// The model that an entry of the listing describes, at a price: one for text that a server
/// is known for, and none that only ranks or embeds.
pub open spec fn model_of(
    v: JsonValue,
    price: (u64, u64),
    servers: Seq<(Seq<char>, Seq<char>)>,
) -> Option<(Seq<char>, ModelFacts)> {
    match text_at(v, "id"@) {
        Some(id) => match entry_of(servers, id) {
            Some(domain) => if is_text_only(v) && !has_text(id, "Reranker"@) && !has_text(
                id,
                "Embedding"@,
            ) {
                Some(
                    (
                        enclave_name(id),
                        ModelFacts {
                            upstream: id,
                            name: enclave_name(id),
                            price_input: price.0,
                            price_output: price.1,
                            context: stated(
                                v,
                                "context_length"@,
                                "context_length"@,
                                128000,
                            ),
                            completion: stated(
                                v,
                                "max_output_length"@,
                                "max_completion_tokens"@,
                                4096,
                            ),
                            sampling: without_stop(
                                value_or(
                                    v,
                                    "supported_sampling_parameters"@,
                                    words_value(default_sampling()),
                                ),
                            ),
                            features: value_or(
                                v,
                                "supported_features"@,
                                JsonValue::Arr(seq![]),
                            ),
                            endpoint: Some("https://"@ + domain),
                        },
                    ),
                )
            } else {
                None
            },
            None => None,
        },
        None => None,
    }
}

/// What the entries of the listing describe.
pub open spec fn models_found(
    v: Seq<JsonValue>,
    prices: Seq<(u64, u64)>,
    servers: Seq<(Seq<char>, Seq<char>)>,
) -> Seq<Option<(Seq<char>, ModelFacts)>> {
    Seq::new(v.len(), |i: int| model_of(v[i], prices[i], servers))
}

fn only_text(v: &Json, key: &str, inner: &str) -> (r: bool)
    ensures
        r == (modalities(v@, key@, inner@) matches Some(m) && only_word(m, "text"@)),
{
    let found = match v.get(key) {
        Some(m) => Some(m),
        None => match v.get("architecture") {
            Some(a) => a.get(inner),
            None => None,
        },
    };
    match found {
        Some(m) => match m.as_array() {
            Some(e) => holds_only_word(e, "text"),
            None => false,
        },
        None => false,
    }
}

fn read_stated(v: &Json, own: &str, top: &str, otherwise: u64) -> (r: u64)
    ensures
        r == stated(v@, own@, top@, otherwise),
{
    let n = number_at_or(v, own, otherwise);
    match v.get("top_provider") {
        Some(t) => number_at_or(t, top, n),
        None => n,
    }
}

fn read_model(v: &Json, price: (u64, u64), servers: &Vec<(String, String)>) -> (r: Option<
    (String, DynamicModelInfo),
>)
    ensures
        match r {
            Some(m) => model_of(v@, price, entries(servers@)) == Some((m.0@, m.1.deep_view())),
            None => model_of(v@, price, entries(servers@)) is None,
        },
{
    if !only_text(v, "output_modalities", "outputModalities") || !only_text(
        v,
        "input_modalities",
        "inputModalities",
    ) {
        return None;
    }
    let id = match v.text_at("id") {
        Some(s) => s,
        None => {
            return None;
        },
    };
    let domain = match table::lookup(servers, id.as_str()) {
        Some(d) => d,
        None => {
            return None;
        },
    };
    if text::contains(id.as_str(), "Reranker") || text::contains(id.as_str(), "Embedding") {
        return None;
    }
    let name = name_of_enclave_model(id.as_str());
    let words: Vec<&'static str> = vec![
        "temperature",
        "top_p",
        "top_k",
        "frequency_penalty",
        "presence_penalty",
        "max_tokens",
        "seed",
    ];
    proof {
        assert(words@.map_values(|s: &'static str| s@) =~= default_sampling());
    }
    let sampling = copy_at_or(v, "supported_sampling_parameters", words_json(&words));
    let none: Vec<Json> = Vec::new();
    proof {
        lemma_array_view(none);
        assert(values_of(none@) =~= seq![]);
    }
    let endpoint = text::cat2("https://", domain.as_str());
    let info = DynamicModelInfo {
        upstream_model_name: id.clone(),
        name: name.clone(),
        price_input_1m: price.0,
        price_output_1m: price.1,
        context_length: read_stated(v, "context_length", "context_length", 128000),
        max_completion_tokens: read_stated(
            v,
            "max_output_length",
            "max_completion_tokens",
            4096,
        ),
        supported_sampling_parameters: drop_stop(&sampling),
        supported_features: copy_at_or(v, "supported_features", Json::Arr(none)),
        direct_endpoint: Some(endpoint),
    };
    Some((name, info))
}

/// Reads the models out of the listing, given the answer that holds the list of servers.
/// `prices` are those of the entries, in the same order.
pub fn parse_models(mapping: &Json, data: &Vec<Json>, prices: &Vec<(u64, u64)>) -> (r: Vec<
    (String, DynamicModelInfo),
>)
    requires
        prices@.len() == data@.len(),
    ensures
        entries(r@) == collected(
            models_found(values_of(data@), prices@, servers_of(mapping@)),
        ),
{
    let servers = read_servers(mapping);
    let ghost found = models_found(values_of(data@), prices@, entries(servers@));
    let mut out: Vec<(String, DynamicModelInfo)> = Vec::new();
    let mut i: usize = 0;
    proof {
        assert(found.take(0) =~= seq![]);
        assert(entries(out@) =~= seq![]);
    }
    while i < data.len()
        invariant
            i <= data@.len(),
            prices@.len() == data@.len(),
            found == models_found(values_of(data@), prices@, entries(servers@)),
            entries(out@) == collected(found.take(i as int)),
        decreases data@.len() - i,
    {
        proof {
            assert(found.take(i + 1).drop_last() =~= found.take(i as int));
            assert(found.take(i + 1).last() == model_of(
                data@[i as int]@,
                prices@[i as int],
                entries(servers@),
            ));
        }
        if let Some((name, info)) = read_model(&data[i], prices[i], &servers) {
            table::insert(&mut out, name.as_str(), info);
        }
        i = i + 1;
    }
    proof {
        assert(found.take(found.len() as int) =~= found);
    }
    out
}

} // verus!
