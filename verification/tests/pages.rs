use deadrouter::currency::Currency;
use deadrouter::i18n::t;
use deadrouter::i18n::Locale;
use deadrouter::i18n::Phrase;
use deadrouter::json::Json;
use deadrouter::landing_page::normalize_id;
use deadrouter::landing_page::select_featured_models;
use deadrouter::models::compare_model_names;
use deadrouter::models_list::detailed_item;
use deadrouter::models_list::models_response;
use deadrouter::models_list::offered_models;
use deadrouter::models_list::parse_list_query;
use deadrouter::models_list::short_item;
use deadrouter::models_list::Pricing;
use deadrouter::models_list::trimmed_cost;
use deadrouter::models_list::trimmed_price;
use deadrouter::models_page::get_model_details;
use deadrouter::models_page::make_readable;
use deadrouter::models_page::model_item;
use deadrouter::models_page::models_shown;
use deadrouter::models_page::offering_providers;
use deadrouter::models_page::CatalogEntry;
use deadrouter::models_page::RenderModelItem;
use deadrouter::providers::known_providers;
use deadrouter::providers::ProviderKeys;
use deadrouter::providers_page::find_logo;
use deadrouter::providers_page::get_flag;
use deadrouter::providers_page::logo_letter;
use deadrouter::providers_page::provider_card;
use deadrouter::providers_page::providers_shown;
use deadrouter::providers_page::unsupported_cards;
use deadrouter::query::parse_page_query;
use deadrouter::query::passes_filter;
use deadrouter::query::split_pair;
use deadrouter::query::url_decode;
use deadrouter::ranking::cheapest;
use deadrouter::ranking::order_by_name;
use deadrouter::ranking::order_by_name_down;
use deadrouter::ranking::order_by_text;
use deadrouter::ranking::Cost;
use deadrouter::router::parse_locale_and_path;
use deadrouter::state::DynamicModelInfo;
use deadrouter::state::ProviderConfig;

fn from_value(v: &serde_json::Value) -> Json {
    match v {
        serde_json::Value::Null => Json::Null,
        serde_json::Value::Bool(b) => Json::Bool(*b),
        serde_json::Value::Number(n) => {
            if let Some(u) = n.as_u64() {
                Json::Unsigned(u)
            } else if let Some(i) = n.as_i64() {
                Json::Signed(i)
            } else {
                Json::Float(n.as_f64().unwrap().to_bits())
            }
        }
        serde_json::Value::String(s) => Json::Str(s.clone()),
        serde_json::Value::Array(a) => Json::Arr(a.iter().map(from_value).collect()),
        serde_json::Value::Object(o) => {
            Json::Obj(o.iter().map(|(k, v)| (k.clone(), from_value(v))).collect())
        }
    }
}

fn to_value(v: &Json) -> serde_json::Value {
    match v {
        Json::Null => serde_json::Value::Null,
        Json::Bool(b) => serde_json::Value::from(*b),
        Json::Unsigned(u) => serde_json::Value::from(*u),
        Json::Signed(i) => serde_json::Value::from(*i),
        Json::Float(bits) => serde_json::Value::from(f64::from_bits(*bits)),
        Json::Str(s) => serde_json::Value::from(s.clone()),
        Json::Arr(a) => serde_json::Value::from(a.iter().map(to_value).collect::<Vec<_>>()),
        Json::Obj(o) => serde_json::Value::Object(o.iter().map(|(k, v)| (k.clone(), to_value(v))).collect()),
    }
}

/// Reads a JSON text.
fn json(text: &str) -> Json {
    from_value(&serde_json::from_str(text).unwrap())
}

/// Whether a value says what a JSON text says.
fn says(v: &Json, text: &str) {
    let expected: serde_json::Value = serde_json::from_str(text).unwrap();
    assert_eq!(to_value(v), expected);
}

// Queries

#[test]
fn queries_are_decoded() {
    assert_eq!(url_decode("a+b%20c"), "a b c");
    assert_eq!(url_decode("%C3%A9"), "é");
    assert_eq!(url_decode("%zz%4"), "%zz%4");
    assert_eq!(url_decode("100%"), "100%");
    assert_eq!(url_decode("%ff"), "\u{fffd}");
    assert_eq!(split_pair("k=v=w"), Some(("k".to_string(), "v=w".to_string())));
    assert_eq!(split_pair("k"), None);
}

#[test]
fn pages_are_filtered() {
    let q = parse_page_query(Some("q=+GLM%205+&zdr=1&zds=0&tee=1&x"));
    assert_eq!(q.search, "glm 5");
    assert_eq!((q.zdr, q.zds, q.tee), (true, false, true));
    assert!(passes_filter(&q, "GLM 5.1", "x", true, false, true));
    assert!(passes_filter(&q, "x", "my-glm 5", true, true, true));
    assert!(!passes_filter(&q, "Kimi", "kimi", true, true, true));
    assert!(!passes_filter(&q, "GLM 5", "x", false, true, true));
    let all = parse_page_query(None);
    assert!(passes_filter(&all, "a", "b", false, false, false));
}

#[test]
fn lists_are_told_what_to_show() {
    let q = parse_list_query("/v1/models?currency=chf&detailed=true");
    assert!(q.currency == Currency::CHF);
    assert!(q.detailed);
    let q = parse_list_query("/v1/models?currency=xyz&detailed=yes");
    assert!(q.currency == Currency::USD);
    assert!(!q.detailed);
    assert!(Currency::from_str("jpy") == Some(Currency::JPY));
    assert!(Currency::from_str("x").is_none());
    assert_eq!(Currency::EUR.to_str(), "EUR");
}

// Order

fn texts(v: &[&str]) -> Vec<String> {
    v.iter().map(|s| s.to_string()).collect()
}

#[test]
fn names_are_put_in_order() {
    let names = texts(&["GLM 10", "glm 9", "Alpha", "GLM 9"]);
    assert_eq!(order_by_name(&names), vec![2, 1, 3, 0]);
    assert_eq!(order_by_name_down(&names), vec![0, 1, 3, 2]);
    assert_eq!(order_by_text(&texts(&["b", "B", "a", "b"])), vec![1, 2, 0, 3]);
}

#[test]
fn nothing_is_cheaper() {
    let cost = |p: u64, c: u64| Cost { prompt: Some(p), completion: Some(c) };
    assert_eq!(cheapest(&vec![cost(3, 1), cost(2, 9), cost(2, 8), cost(2, 8)]), Some(2));
    assert_eq!(cheapest(&vec![]), None);
}

// Models

fn catalog() -> Vec<CatalogEntry> {
    vec![CatalogEntry { id: "glm-5", name: "GLM 5", english: "en text", latin: "la text" }]
}

#[test]
fn models_are_described() {
    assert_eq!(
        get_model_details(&catalog(), "glm-5", "la"),
        ("GLM 5".to_string(), "la text".to_string())
    );
    assert_eq!(get_model_details(&catalog(), "glm-5", "en").1, "en text");
    assert_eq!(make_readable("some-new_model  x"), "Some New Model X");
    assert_eq!(
        get_model_details(&catalog(), "new-model", "en"),
        (
            "New Model".to_string(),
            "An anonymously routed AI model: New Model. Securely processed through DeadRouter with privacy protection.".to_string()
        )
    );
    assert_eq!(
        get_model_details(&catalog(), "new-model", "la").1,
        "Modelum AI anonyme directum: New Model. In DeadRouter cum tutela securitatis tuto processum."
    );
}

fn providers() -> Vec<ProviderConfig> {
    let keys = ProviderKeys {
        near_ai: String::new(),
        chutes: String::new(),
        redpill: String::new(),
        infomaniak: String::new(),
        tinfoil: String::new(),
    };
    known_providers(&keys, "1")
}

fn info(name: &str) -> DynamicModelInfo {
    DynamicModelInfo {
        upstream_model_name: "up".to_string(),
        name: name.to_string(),
        price_input_1m: 0,
        price_output_1m: 0,
        context_length: 7,
        max_completion_tokens: 8,
        supported_sampling_parameters: json(r#"["seed","stop"]"#),
        supported_features: json("[]"),
        direct_endpoint: None,
    }
}

#[test]
fn models_show_what_their_providers_promise() {
    let all = providers();
    let known: Vec<Vec<(String, DynamicModelInfo)>> = (0..5)
        .map(|i| if i == 3 || i == 0 { vec![("glm-5".to_string(), info("GLM"))] } else { vec![] })
        .collect();
    let ids = texts(&["infomaniak", "ghost", "chutes", "near-ai"]);
    let chosen = offering_providers(&ids, &all, &known, "glm-5");
    assert_eq!(chosen, vec![3, 0]);
    let item = model_item(&catalog(), "glm-5", "en", &chosen, &all, "0.10", "0.20");
    assert_eq!(item.name, "GLM 5");
    assert_eq!((item.price_input.as_str(), item.price_output.as_str()), ("0.10", "0.20"));
    assert_eq!((item.zdr, item.zds, item.tee), (true, true, true));
    let swiss = model_item(&catalog(), "glm-5", "en", &vec![3], &all, "", "");
    assert!(!swiss.tee);
}

fn item(name: &str, tee: bool) -> RenderModelItem {
    RenderModelItem {
        name: name.to_string(),
        description: String::new(),
        price_input: String::new(),
        price_output: String::new(),
        zdr: true,
        zds: true,
        tee,
    }
}

#[test]
fn the_page_of_models_is_in_order() {
    let items = vec![
        ("glm-10".to_string(), item("GLM 10", true)),
        ("glm-9".to_string(), item("GLM 9", true)),
        ("kimi".to_string(), item("Kimi", true)),
        ("glm-x".to_string(), item("GLM X", false)),
    ];
    let shown = models_shown(&items, &parse_page_query(Some("q=glm&tee=1")));
    let names: Vec<&str> = shown.iter().map(|m| m.name.as_str()).collect();
    assert_eq!(names, vec!["GLM 9", "GLM 10"]);
}

#[test]
fn no_model_is_put_forward_twice() {
    assert_eq!(normalize_id("GLM-5.2"), "glm52");
    let ids = [
        "glm-5.2", "glm-5-2", "glm-4.7", "glm-4.5", "kimi-k2.6", "kimi-k2", "kimi-k1", "big", "small", "leaky", "mid",
    ];
    let pool: Vec<(String, RenderModelItem)> =
        ids.iter().map(|id| (id.to_string(), item(id, *id != "leaky"))).collect();
    let ranks = vec![0, 0, 0, 0, 0, 0, 0, 9, 1, 99, 5];
    let picked = select_featured_models(&pool, &ranks);
    let names: Vec<&str> = picked.iter().map(|i| ids[*i]).collect();
    assert_eq!(names.len(), 6);
    assert_eq!(&names[2..], &["kimi-k2.6", "kimi-k2", "big", "mid"]);
    assert_eq!(names[1], "glm-4.7");
    assert!(names[0] == "glm-5.2" || names[0] == "glm-5-2");
}

#[test]
fn models_are_listed() {
    let pricing = Pricing {
        input: 1.5f64.to_bits(),
        output: 2.5f64.to_bits(),
        prompt: "0.0000015".to_string(),
        completion: "0.0000025".to_string(),
        currency: Currency::EUR,
    };
    let detailed = detailed_item("glm", &info("GLM"), &pricing, &texts(&["near-ai"]));
    says(
        &detailed,
        r#"{"id":"glm","object":"model","created":0,"owned_by":"system","name":"GLM",
            "pricing":{"input":1.5,"output":2.5,"prompt":"0.0000015","completion":"0.0000025","image":"0","request":"0","currency":"EUR"},
            "context_length":7,"max_output_length":8,
            "architecture":{"inputModalities":["text"],"outputModalities":["text"]},
            "input_modalities":["text"],"output_modalities":["text"],
            "supported_sampling_parameters":["seed"],"supported_features":[],
            "top_provider":{"context_length":7,"max_completion_tokens":8,"is_moderated":false},
            "providers":["near-ai"]}"#,
    );
    let ids = texts(&["b", "a"]);
    let listed = models_response(&ids, &vec![short_item("b"), short_item("a")]);
    says(
        &listed,
        r#"{"object":"list","data":[{"id":"a","object":"model","created":0,"owned_by":"system"},
            {"id":"b","object":"model","created":0,"owned_by":"system"}]}"#,
    );
}

// Providers

#[test]
fn providers_are_shown_on_cards() {
    assert_eq!(get_flag("ch"), "🇨🇭");
    assert_eq!(get_flag("xx"), "🌐");
    assert_eq!(logo_letter("*near"), "N");
    assert_eq!(logo_letter("--"), "P");
    let files = texts(&["openai.svg", "Chutes.PNG", "chutes.svg"]);
    assert_eq!(find_logo(&files, "chutes"), Some("/logos/Chutes.PNG".to_string()));
    assert_eq!(find_logo(&files, "chute"), None);
    let card = provider_card(&providers()[1], &files);
    assert_eq!(card.logo_letter, "C");
    assert_eq!((card.legal_location.as_str(), card.legal_flag.as_str()), ("US", "🇺🇸"));
    assert!(card.supported);

    let cards: Vec<_> = providers().iter().map(|p| provider_card(p, &files)).collect();
    let shown = providers_shown(&cards, &parse_page_query(Some("tee=1")));
    let names: Vec<&str> = shown.iter().map(|c| c.name.as_str()).collect();
    assert_eq!(names, vec!["Chutes", "Near AI", "RedPill", "Tinfoil"]);
    let others = unsupported_cards("described elsewhere");
    assert_eq!(others.len(), 2);
    assert_eq!(others[1].description, "described elsewhere");
    assert!(!others[0].supported);
    assert!(providers_shown(&others, &parse_page_query(Some("zdr=1"))).is_empty());
}

// Languages

#[test]
fn texts_fall_back_to_english() {
    let all = vec![
        Phrase { code: "en", key: "hi", text: "Hello" },
        Phrase { code: "la", key: "hi", text: "Salve" },
        Phrase { code: "en", key: "bye", text: "Bye" },
    ];
    assert_eq!(t(&all, Locale::La, "hi"), "Salve");
    assert_eq!(t(&all, Locale::La, "bye"), "Bye");
    assert_eq!(t(&all, Locale::En, "none"), "");
    assert!(Locale::from_code("en") == Locale::En);
    assert!(Locale::from_code("de") == Locale::La);
    assert_eq!(Locale::En.prefix(), "/en");
    assert_eq!(Locale::La.home_href(), "/");
    assert!(Locale::from_code(Locale::La.code()) == Locale::La);
}

#[test]
fn a_path_is_cut_behind_its_language() {
    assert_eq!(parse_locale_and_path("/en/models"), ("en", "/models".to_string()));
    assert_eq!(parse_locale_and_path("/la/"), ("la", "/".to_string()));
    assert_eq!(parse_locale_and_path("/la"), ("la", "/".to_string()));
    assert_eq!(parse_locale_and_path("/models"), ("la", "/models".to_string()));
    assert_eq!(parse_locale_and_path("x/en/y"), ("en", "n/y".to_string()));
}

#[test]
fn prices_lose_their_last_zeros() {
    assert_eq!(trimmed_price("0.0000150000"), "0.000015");
    assert_eq!(trimmed_price("10.0000000000"), "10");
    assert_eq!(trimmed_cost("0.00120000"), "0.0012");
    assert_eq!(trimmed_cost("2.00000000"), "2");
    assert_eq!(trimmed_cost("0"), "0.0");
    assert_eq!(offered_models(&vec![true, false, true]), vec![0, 2]);
    assert!(offered_models(&vec![]).is_empty());
}

#[test]
fn letter_case_does_not_count() {
    assert_eq!(compare_model_names("GLM-5.1 Air", "glm-5.1 AIR"), std::cmp::Ordering::Equal);
    assert_eq!(compare_model_names("GLM-5.10", "glm-5.9"), std::cmp::Ordering::Greater);
    assert_eq!(Currency::from_str("eUr"), Some(Currency::EUR));
    assert_eq!(Currency::from_str("eu"), None);
}
