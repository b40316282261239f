use std::cmp::Ordering;

use deadrouter::json::Json;
use deadrouter::models::compare_model_names;
use deadrouter::models::get_dynamic_model_info;
use deadrouter::models::normalize_dashed_version;
use deadrouter::models::parse_sort_chunks;
use deadrouter::models::standardize_model_name;
use deadrouter::models::SortChunk;
use deadrouter::state::DynamicModelInfo;

#[test]
fn test_normalize_dashed_version() {
    assert_eq!(normalize_dashed_version("glm-5-2"), "glm-5.2");
    assert_eq!(normalize_dashed_version("kimi-k2-6"), "kimi-k2.6");
    assert_eq!(normalize_dashed_version("glm-4-7"), "glm-4.7");
    assert_eq!(normalize_dashed_version("glm-5-2-flash"), "glm-5.2-flash");
    // Already-standard forms and unrelated hyphens pass through unchanged.
    assert_eq!(normalize_dashed_version("glm-5.2"), "glm-5.2");
    assert_eq!(normalize_dashed_version("glm-5"), "glm-5");
    assert_eq!(normalize_dashed_version("ministral-3-14b-instruct-2512"), "ministral-3-14b-instruct-2512");
    assert_eq!(normalize_dashed_version("apertus-70b-instruct-2509"), "apertus-70b-instruct-2509");
    assert_eq!(normalize_dashed_version("qwen3-30b-a3b-instruct-2507"), "qwen3-30b-a3b-instruct-2507");
}

#[test]
fn test_standardize_model_name() {
    assert_eq!(standardize_model_name("some-org/GLM-5-2"), "glm-5.2");
    assert_eq!(standardize_model_name("kimi-k2-6-FP8"), "kimi-k2.6");
}

#[test]
fn dotting_twice_is_dotting_once() {
    for id in ["glm-5-2", "a-1-2-3", "1-2", "--1-2--", "x"] {
        let once = normalize_dashed_version(id);
        assert_eq!(normalize_dashed_version(&once), once);
    }
    assert_eq!(normalize_dashed_version("a-1-2-3"), "a-1.2.3");
}

#[test]
fn names_are_ordered_by_their_numbers() {
    let mut names = vec![
        "GLM 4.7", "GLM 5.1", "Qwen 3.5 27B", "DeepSeek v3.2", "DeepSeek v4 Flash", "Qwen 3.6 27B",
    ];
    names.sort_by(|a, b| compare_model_names(a, b));
    assert_eq!(
        names,
        vec!["DeepSeek v3.2", "DeepSeek v4 Flash", "GLM 4.7", "GLM 5.1", "Qwen 3.5 27B", "Qwen 3.6 27B"]
    );
    assert_eq!(compare_model_names("glm 5", "GLM 5"), Ordering::Equal);
    assert_eq!(compare_model_names("glm 10", "glm 9"), Ordering::Greater);
    assert_eq!(compare_model_names("glm 9", "glm 10"), Ordering::Less);
}

fn texts_of(name: &str) -> Vec<String> {
    parse_sort_chunks(name)
        .iter()
        .map(|c| match c {
            SortChunk::Num(n) => format!("#{}", n),
            SortChunk::Text(t) => t.clone(),
        })
        .collect()
}

#[test]
fn case_does_not_count_in_names() {
    for name in ["GLM 5.2", "na\u{ef}ve \u{df}7\u{3a3}b", "\u{391}\u{3a3}12\u{392}\u{3a3}3", "\u{130}1", ""] {
        assert_eq!(compare_model_names(name, &name.to_lowercase()), Ordering::Equal);
        assert_eq!(compare_model_names(name, &name.to_ascii_uppercase()), Ordering::Equal);
        assert_eq!(compare_model_names(name, name), Ordering::Equal);
    }
    // Each stretch is lowered as if it stood alone: a sigma before a digit ends its word.
    assert_eq!(texts_of("\u{391}\u{3a3}12\u{392}\u{3a3}3"), ["\u{3b1}\u{3c2}", "#12", "\u{3b2}\u{3c2}", "#3"]);
    assert_eq!(texts_of("A\u{3a3}.1b"), ["A\u{3a3}.".to_lowercase(), "#1".to_string(), "b".to_string()]);
    assert_eq!(texts_of("V99999999999999999999B"), ["v", "b"]);
}

#[test]
fn unknown_models_are_told() {
    let info = DynamicModelInfo {
        upstream_model_name: "up/glm".to_string(),
        name: "GLM".to_string(),
        price_input_1m: 1,
        price_output_1m: 2,
        context_length: 3,
        max_completion_tokens: 4,
        supported_sampling_parameters: Json::Null,
        supported_features: Json::Null,
        direct_endpoint: Some("https://x".to_string()),
    };
    let models = vec![("glm".to_string(), info)];
    let found = get_dynamic_model_info(&models, "glm").unwrap();
    assert_eq!(found.upstream_model_name, "up/glm");
    assert_eq!(found.direct_endpoint.as_deref(), Some("https://x"));
    assert_eq!(
        get_dynamic_model_info(&models, "kimi").err().unwrap(),
        "Model kimi not dynamically configured"
    );
}
