use moonshine_core::{
    auth_status, default_chat_model, default_embedding_model, filter_admits, find_setting,
    gemini_model_path, is_known_relation, is_valid_category, pipeline_status,
    provider_switch_needed, resolve_embedding_config, update_progress, validate_classification,
    ClassifyResponse, EdgeOrigin, EmbeddingProvider, EmbeddingTaskType, PipelineSchedulerState,
    Status,
};

fn settings(pairs: &[(&str, &str)]) -> Vec<(String, String)> {
    pairs.iter().map(|(k, v)| (k.to_string(), v.to_string())).collect()
}

#[test]
fn provider_names_round_trip() {
    assert_eq!(EmbeddingProvider::from_str("openai"), Ok(EmbeddingProvider::OpenAI));
    assert_eq!(EmbeddingProvider::from_str("gemini"), Ok(EmbeddingProvider::Gemini));
    assert_eq!(EmbeddingProvider::OpenAI.as_str(), "openai");
    assert_eq!(EmbeddingProvider::Gemini.as_str(), "gemini");
    assert_eq!(
        EmbeddingProvider::from_str("cohere"),
        Err("Unknown embedding provider: cohere".to_string())
    );
    assert_eq!(EmbeddingProvider::OpenAI.batch_limit(), 2048);
    assert_eq!(EmbeddingProvider::Gemini.batch_limit(), 100);
}

#[test]
fn default_models() {
    assert_eq!(default_embedding_model(&EmbeddingProvider::OpenAI), "text-embedding-3-small");
    assert_eq!(default_embedding_model(&EmbeddingProvider::Gemini), "gemini-embedding-001");
    assert_eq!(default_chat_model(&EmbeddingProvider::OpenAI), "gpt-4o-mini");
    assert_eq!(default_chat_model(&EmbeddingProvider::Gemini), "gemini-2.0-flash");
}

#[test]
fn config_defaults_to_openai() {
    let c = resolve_embedding_config(&settings(&[("openai_api_key", "k1")])).unwrap();
    assert_eq!(c.provider, EmbeddingProvider::OpenAI);
    assert_eq!(c.api_key, "k1");
    assert_eq!(c.embedding_model, "text-embedding-3-small");
    assert_eq!(c.chat_model, "gpt-4o-mini");
}

#[test]
fn config_uses_stored_models_and_provider_key() {
    let c = resolve_embedding_config(&settings(&[
        ("embedding_provider", "gemini"),
        ("openai_api_key", "wrong"),
        ("gemini_api_key", "g"),
        ("embedding_model", "custom-embed"),
        ("chat_model", "custom-chat"),
    ]))
    .unwrap();
    assert_eq!(c.provider, EmbeddingProvider::Gemini);
    assert_eq!(c.api_key, "g");
    assert_eq!(c.embedding_model, "custom-embed");
    assert_eq!(c.chat_model, "custom-chat");
}

#[test]
fn config_errors() {
    let missing = resolve_embedding_config(&settings(&[("embedding_provider", "gemini")]));
    assert_eq!(missing.err(), Some("gemini API key not configured".to_string()));
    let unknown = resolve_embedding_config(&settings(&[("embedding_provider", "x")]));
    assert_eq!(unknown.err(), Some("Unknown embedding provider: x".to_string()));
    assert!(resolve_embedding_config(&vec![]).is_err());
}

#[test]
fn first_setting_wins() {
    let s = settings(&[("k", "1"), ("k", "2")]);
    assert_eq!(find_setting(&s, "k"), Some("1".to_string()));
    assert_eq!(find_setting(&s, "other"), None);
}

#[test]
fn gemini_paths_and_task_names() {
    assert_eq!(gemini_model_path("gemini-embedding-001"), "models/gemini-embedding-001");
    assert_eq!(gemini_model_path("models/x"), "models/x");
    assert_eq!(gemini_model_path("model"), "models/model");
    assert_eq!(EmbeddingTaskType::Document.gemini_task_name(), "RETRIEVAL_DOCUMENT");
    assert_eq!(EmbeddingTaskType::Query.gemini_task_name(), "RETRIEVAL_QUERY");
}

#[test]
fn status_words() {
    let all = [
        (Status::Raw, "MASH_TUN"),
        (Status::Queued, "ON_STILL"),
        (Status::EmbeddedPendingLink, "DISTILLED"),
        (Status::Settled, "JARRED"),
        (Status::ForceReembed, "RE_EMBED"),
        (Status::ForceReextract, "RE_EXTRACT"),
    ];
    for (s, w) in all {
        assert_eq!(s.as_str(), w);
        assert_eq!(Status::parse(w), Some(s));
    }
    assert_eq!(Status::parse("jarred"), None);
    assert_eq!(EdgeOrigin::parse("ai"), EdgeOrigin::Ai);
    assert_eq!(EdgeOrigin::parse("human"), EdgeOrigin::Human);
    assert_eq!(EdgeOrigin::Ai.as_str(), "ai");
}

#[test]
fn relation_vocabulary() {
    assert!(is_known_relation("RELATED_TO"));
    assert!(is_known_relation("SUPPORTS"));
    assert!(is_known_relation("CONFLICTS_WITH"));
    assert!(!is_known_relation("supports"));
}

#[test]
fn classification_categories() {
    assert!(is_valid_category("결정"));
    assert!(is_valid_category("질문"));
    assert!(!is_valid_category("decision"));
    let ok = ClassifyResponse {
        mash_type: "인사이트".into(),
        summary: "s".into(),
        context: None,
        memo: Some("m".into()),
    };
    assert_eq!(validate_classification(ok).unwrap().summary, "s");
    let bad = ClassifyResponse {
        mash_type: "idea".into(),
        summary: "s".into(),
        context: None,
        memo: None,
    };
    assert_eq!(
        validate_classification(bad).err(),
        Some("Invalid mash type from AI: 'idea'. Expected one of: 결정, 문제, 인사이트, 질문".to_string())
    );
}

#[test]
fn auth_rules() {
    assert!(auth_status(false, false).authenticated);
    assert!(!auth_status(true, false).authenticated);
    assert!(auth_status(true, true).authenticated);
    assert!(auth_status(true, true).password_set);
}

#[test]
fn graph_filters() {
    let v = "SUPPORTS".to_string();
    assert!(filter_admits(&None, &v));
    assert!(filter_admits(&Some(vec![]), &v));
    assert!(filter_admits(&Some(vec!["RELATED_TO".into(), "SUPPORTS".into()]), &v));
    assert!(!filter_admits(&Some(vec!["RELATED_TO".into()]), &v));
}

#[test]
fn provider_switch_detection() {
    assert!(!provider_switch_needed(&None, "openai"));
    assert!(provider_switch_needed(&None, "gemini"));
    assert!(!provider_switch_needed(&Some("gemini".into()), "gemini"));
    assert!(provider_switch_needed(&Some("gemini".into()), "openai"));
}

#[test]
fn status_report_counts_stages() {
    let mut s = PipelineSchedulerState::new(30);
    s.plan_next_run(1000);
    let statuses = vec![Status::Queued, Status::Settled, Status::Settled, Status::EmbeddedPendingLink, Status::Raw];
    let r = pipeline_status(&s, Some(5), &statuses);
    assert_eq!(r.on_still_count, 1);
    assert_eq!(r.distilled_count, 1);
    assert_eq!(r.jarred_count, 2);
    assert_eq!(r.next_run, Some(1000 + 30 * 60_000));
    assert_eq!(r.last_run, Some(5));
    assert_eq!(r.interval_min, 30);
    assert!(!r.running);
}

#[test]
fn progress_is_recorded() {
    let mut p = None;
    update_progress(&mut p, "re_extract", "api", 2, 7);
    let p = p.unwrap();
    assert_eq!((p.phase.as_str(), p.step.as_str(), p.current, p.total), ("re_extract", "api", 2, 7));
}
