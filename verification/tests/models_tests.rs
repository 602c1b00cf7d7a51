use logseek::models::{S3Settings, S3SettingsPayload, DefaultLlmPayload, LlmBackendListItem, ProviderKindPayload, LlmBackendUpsertPayload, backend_of_payload, settle_api_key};
use logseek::llm::{ProviderKind, LlmBackendPublic, LlmBackend};
use logseek::config::default_true;

#[test]
fn test_s3_settings_conversion_to_domain() {
    let payload = S3SettingsPayload {
        endpoint: "localhost:9000".to_string(),
        access_key: "admin".to_string(),
        secret_key: "password".to_string(),
        configured: true,
        connection_error: None,
    };

    let settings: S3Settings = payload.into();

    assert_eq!(settings.endpoint, "localhost:9000");
    assert_eq!(settings.access_key, "admin");
    assert_eq!(settings.secret_key, "password");
}

#[test]
fn test_s3_settings_conversion_from_domain() {
    let settings = S3Settings {
        endpoint: "localhost:9000".to_string(),
        access_key: "admin".to_string(),
        secret_key: "password".to_string(),
    };

    let payload: S3SettingsPayload = settings.into();

    assert_eq!(payload.endpoint, "localhost:9000");
    assert!(!payload.configured);
    assert_eq!(payload.connection_error, None);
}

#[test]
fn test_s3_settings_default() {
    let payload = S3SettingsPayload::default();

    assert_eq!(payload.endpoint, "");
    assert_eq!(payload.access_key, "");
    assert_eq!(payload.secret_key, "");
    assert!(!payload.configured);
    assert_eq!(payload.connection_error, None);
}

#[test]
fn test_default_true_helper() {
    assert!(default_true());
}

#[test]
fn test_payload_conversions() {
    let p = ProviderKindPayload::Ollama;
    let k: ProviderKind = p.into();
    assert_eq!(k, ProviderKind::Ollama);

    let p2: ProviderKindPayload = k.into();
    assert!(matches!(p2, ProviderKindPayload::Ollama));
}

#[test]
fn test_provider_kind_payload_openai() {
    let p = ProviderKindPayload::OpenAI;
    let k: ProviderKind = p.into();
    assert_eq!(k, ProviderKind::OpenAI);

    let p2: ProviderKindPayload = k.into();
    assert!(matches!(p2, ProviderKindPayload::OpenAI));
}

#[test]
fn test_llm_backend_list_item_from_public() {
    let public = LlmBackendPublic {
        name: "test".to_string(),
        provider: ProviderKind::Ollama,
        base_url: "http://localhost:11434".to_string(),
        model: "llama2".to_string(),
        timeout_secs: 60,
        has_api_key: false,
    };

    let item: LlmBackendListItem = public.into();
    assert_eq!(item.name, "test");
    assert!(matches!(item.provider, ProviderKindPayload::Ollama));
    assert_eq!(item.base_url, "http://localhost:11434");
    assert_eq!(item.model, "llama2");
    assert_eq!(item.timeout_secs, 60);
    assert!(!item.has_api_key);
}

#[test]
fn test_default_llm_payload() {
    let payload = DefaultLlmPayload { name: "my-backend".to_string() };
    assert_eq!(payload.name, "my-backend");
}

#[test]
fn provider_kind_text_round_trip() {
    assert_eq!(ProviderKind::Ollama.as_str(), "ollama");
    assert_eq!(ProviderKind::OpenAI.as_str(), "openai");
    assert_eq!(ProviderKind::parse("OpenAI"), Some(ProviderKind::OpenAI));
    assert_eq!(ProviderKind::parse("OLLAMA"), Some(ProviderKind::Ollama));
    assert_eq!(ProviderKind::parse("mistral"), None);
}

fn payload(timeout: i64, key: Option<&str>) -> LlmBackendUpsertPayload {
    LlmBackendUpsertPayload {
        name: "  main  ".to_string(),
        provider: ProviderKindPayload::OpenAI,
        base_url: " https://api.example.com ".to_string(),
        model: " gpt ".to_string(),
        timeout_secs: timeout,
        api_key: key.map(|k| k.to_string()),
        organization: Some("   ".to_string()),
        project: None,
        verify_strict: false,
    }
}

#[test]
fn backend_of_payload_trims_and_defaults_timeout() {
    let b: LlmBackend = backend_of_payload(&payload(0, Some(" sk-1 ")));
    assert_eq!(b.name, "main");
    assert_eq!(b.base_url, "https://api.example.com");
    assert_eq!(b.model, "gpt");
    assert_eq!(b.timeout_secs, 60);
    assert_eq!(b.api_key, Some("sk-1".to_string()));
    assert_eq!(b.organization, None);
    assert_eq!(b.provider, ProviderKind::OpenAI);
    let b2 = backend_of_payload(&payload(15, None));
    assert_eq!(b2.timeout_secs, 15);
}

#[test]
fn settle_api_key_keeps_stored_key_without_new_one() {
    let b = backend_of_payload(&payload(30, None));
    let (kept, replaced) = settle_api_key(b, Some("old-key".to_string()));
    assert!(!replaced);
    assert_eq!(kept.api_key, Some("old-key".to_string()));

    let b = backend_of_payload(&payload(30, Some("new-key")));
    let (set, replaced) = settle_api_key(b, Some("old-key".to_string()));
    assert!(replaced);
    assert_eq!(set.api_key, Some("new-key".to_string()));
}

#[test]
fn provider_parse_ignores_ascii_case_and_inverts_as_str() {
    assert_eq!(ProviderKind::parse("OpenAI"), Some(ProviderKind::OpenAI));
    assert_eq!(ProviderKind::parse("OLLAMA"), Some(ProviderKind::Ollama));
    assert_eq!(ProviderKind::parse("open ai"), None);
    for k in [ProviderKind::Ollama, ProviderKind::OpenAI] {
        assert_eq!(ProviderKind::parse(k.as_str()), Some(k));
    }
}
