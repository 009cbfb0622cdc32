use indexmap::IndexMap;
use igrok::dev_catalog::{
    cache_age_is_fresh, default_reasoning_efforts, dialect_for, enabled, char_is_whitespace, env_var_set, expand_catalog, is_blank,
    ApiBackend, AuthScheme, DevCatalog, DevModel, DevModelEntry, DevPricing, DevProvider, ReasoningEffort,
};

fn model(name: Option<&str>, context_window: Option<u64>, reasoning: bool, prompt: Option<&str>, completion: Option<&str>) -> DevModel {
    DevModel {
        name: name.map(|s| s.to_string()),
        context_window,
        max_tokens: Some(32_000),
        reasoning,
        tool_use: Some(true),
        pricing: DevPricing { prompt: prompt.map(|s| s.to_string()), completion: completion.map(|s| s.to_string()) },
    }
}

fn provider(name: Option<&str>, api: Option<&str>, base_url: Option<&str>, env_key: Option<&str>, models: Vec<(&str, DevModel)>) -> DevProvider {
    DevProvider {
        name: name.map(|s| s.to_string()),
        api: api.map(|s| s.to_string()),
        base_url: base_url.map(|s| s.to_string()),
        env_key: env_key.map(|s| s.to_string()),
        models: models.into_iter().map(|(k, m)| (k.to_string(), m)).collect(),
    }
}

fn sample() -> DevCatalog {
    DevCatalog {
        providers: vec![
            (
                "anthropic".to_string(),
                provider(
                    Some("Anthropic"),
                    Some("anthropic-messages"),
                    Some("https://api.anthropic.com/v1"),
                    Some("ANTHROPIC_API_KEY"),
                    vec![("opus-4-6", model(Some("Opus 4.6"), Some(200_000), true, Some("0.000003"), Some("0.000015")))],
                ),
            ),
            ("nokey".to_string(), provider(None, None, Some("https://example.com/v1"), None, vec![("m", model(None, None, false, None, None))])),
            (
                "openai".to_string(),
                provider(
                    Some("OpenAI"),
                    Some("openai-responses"),
                    Some("https://api.openai.com/v1"),
                    Some("OPENAI_API_KEY"),
                    vec![("gpt-5.2", model(Some("GPT-5.2"), Some(400_000), false, None, None))],
                ),
            ),
            ("xai".to_string(), provider(None, None, Some("https://api.x.ai/v1"), Some("XAI_API_KEY"), vec![("grok-9", model(None, None, false, None, None))])),
        ],
    }
}

fn env(pairs: &[(&str, &str)]) -> Vec<(String, String)> {
    pairs.iter().map(|(k, v)| (k.to_string(), v.to_string())).collect()
}

fn prices() -> Vec<(String, Option<String>)> {
    vec![("0.000003".to_string(), Some("3".to_string())), ("0.000015".to_string(), Some("15".to_string()))]
}

fn find<'a>(entries: &'a IndexMap<String, DevModelEntry>, key: &str) -> Option<&'a DevModelEntry> {
    entries.get(key)
}

#[test]
fn expands_only_mapped_providers_with_credentials() {
    let e = env(&[("ANTHROPIC_API_KEY", "sk-test"), ("OPENAI_API_KEY", "sk-test")]);
    let entries = expand_catalog(&sample(), &e, &prices());
    assert!(find(&entries, "anthropic/opus-4-6").is_some());
    assert!(find(&entries, "openai/gpt-5.2").is_some());
    assert!(find(&entries, "xai/grok-9").is_none());
    assert!(find(&entries, "nokey/m").is_none());
    assert_eq!(entries.len(), 2);
}

#[test]
fn anthropic_dialect_uses_messages_and_x_api_key() {
    let e = env(&[("ANTHROPIC_API_KEY", "sk-test")]);
    let entries = expand_catalog(&sample(), &e, &prices());
    let m = find(&entries, "anthropic/opus-4-6").unwrap();
    assert_eq!(m.api_backend, ApiBackend::Messages);
    assert_eq!(m.auth_scheme, AuthScheme::XApiKey);
    assert!(m.extra_headers.iter().any(|(k, _)| k == "anthropic-version"));
    assert!(m.supports_reasoning_effort);
    assert_eq!(m.reasoning_efforts.len(), 3);
    let d = &m.description;
    assert!(d.contains("Anthropic") && d.contains("200k ctx"));
    assert_eq!(d, "via Anthropic · 200k ctx · $3/$15 per M tok");
    assert_eq!(m.model_family, "anthropic");
    assert_eq!(m.name, "Opus 4.6");
    assert_eq!(m.max_completion_tokens, Some(32_000));
    assert_eq!(m.env_key, "ANTHROPIC_API_KEY");
    assert_eq!(m.context_window, 200_000);
}

#[test]
fn openai_dialect_defaults_to_declared_api() {
    let e = env(&[("OPENAI_API_KEY", "sk-test")]);
    let entries = expand_catalog(&sample(), &e, &prices());
    let m = find(&entries, "openai/gpt-5.2").unwrap();
    assert_eq!(m.api_backend, ApiBackend::Responses);
    assert_eq!(m.auth_scheme, AuthScheme::Bearer);
    assert!(!m.supports_reasoning_effort);
    assert!(m.reasoning_efforts.is_empty());
    assert_eq!(m.description, "via OpenAI · 400k ctx");
}

#[test]
fn unknown_provider_defaults_to_chat_completions() {
    let d = dialect_for(Some("weird-dialect"));
    assert_eq!(d.api_backend, ApiBackend::ChatCompletions);
    assert_eq!(d.auth_scheme, AuthScheme::Bearer);
    assert_eq!(d.model_family, "openai");
    assert!(d.extra_headers.is_empty());
    let none = dialect_for(None);
    assert_eq!(none.api_backend, ApiBackend::ChatCompletions);
    let a = dialect_for(Some("anthropic"));
    assert_eq!(a.api_backend, ApiBackend::Messages);
    assert_eq!(a.extra_headers, vec![("anthropic-version".to_string(), "2023-06-01".to_string())]);
}

#[test]
fn blank_credentials_do_not_count() {
    let e = env(&[("ANTHROPIC_API_KEY", " \t "), ("OPENAI_API_KEY", "")]);
    assert!(!env_var_set(&e, "ANTHROPIC_API_KEY"));
    assert!(!env_var_set(&e, "OPENAI_API_KEY"));
    assert!(!env_var_set(&e, "MISSING"));
    assert!(env_var_set(&env(&[("K", " v ")]), "K"));
    assert!(expand_catalog(&sample(), &e, &prices()).is_empty());
}

#[test]
fn zero_or_missing_context_window_defaults_and_unparsed_prices_are_left_out() {
    let catalog = DevCatalog {
        providers: vec![(
            "p".to_string(),
            provider(None, None, Some("u"), Some("K"), vec![
                ("a", model(None, Some(0), false, Some("x"), Some("0.000015"))),
                ("b", model(None, None, false, Some("0.000003"), None)),
            ]),
        )],
    };
    let price_table = vec![("x".to_string(), None), ("0.000015".to_string(), Some("15".to_string()))];
    let entries = expand_catalog(&catalog, &env(&[("K", "1")]), &price_table);
    let a = find(&entries, "p/a").unwrap();
    assert_eq!(a.context_window, 200_000);
    assert_eq!(a.description, "via p · 200k ctx");
    assert_eq!(a.name, "a");
    let b = find(&entries, "p/b").unwrap();
    assert_eq!(b.description, "via p · 200k ctx");
}

#[test]
fn repeated_keys_keep_their_place() {
    let catalog = DevCatalog {
        providers: vec![
            ("a".to_string(), provider(None, None, Some("u1"), Some("K"), vec![("b/c", model(None, None, false, None, None)), ("z", model(None, None, false, None, None))])),
            ("a/b".to_string(), provider(None, None, Some("u2"), Some("K"), vec![("c", model(None, None, false, None, None))])),
        ],
    };
    let entries = expand_catalog(&catalog, &env(&[("K", "1")]), &vec![]);
    let keys: Vec<&str> = entries.iter().map(|(k, _)| k.as_str()).collect();
    assert_eq!(keys, vec!["a/b/c", "a/z"]);
    assert_eq!(entries.get_index(0).unwrap().1.base_url, "u2");
}

#[test]
fn reasoning_menu_defaults_to_medium() {
    let menu = default_reasoning_efforts();
    let ids: Vec<&str> = menu.iter().map(|o| o.id.as_str()).collect();
    assert_eq!(ids, vec!["low", "medium", "high"]);
    assert_eq!(menu[1].value, ReasoningEffort::Medium);
    assert!(menu[1].default && !menu[0].default && !menu[2].default);
    assert_eq!(menu[2].label, "high");
}

#[test]
fn catalog_setting_and_cache_age() {
    assert!(enabled(None));
    assert!(enabled(Some(true)));
    assert!(!enabled(Some(false)));
    assert!(cache_age_is_fresh(86_399));
    assert!(!cache_age_is_fresh(86_400));
    assert!(cache_age_is_fresh(-5));
}

#[test]
fn blank_means_unicode_white_space_only() {
    assert!(is_blank(""));
    assert!(is_blank(" \t\n\r\u{0B}\u{0C}"));
    assert!(is_blank("\u{85}\u{A0}\u{1680}\u{2000}\u{200A}\u{2028}\u{2029}\u{202F}\u{205F}\u{3000}"));
    assert!(!is_blank("sk-test"));
    assert!(!is_blank(" \u{200B} "));
    assert!(!is_blank("\u{1F}"));
}

#[test]
fn white_space_agrees_with_std() {
    for n in 0..=0x3100u32 {
        if let Some(c) = char::from_u32(n) {
            assert_eq!(char_is_whitespace(c), c.is_whitespace(), "U+{n:04X}");
        }
    }
    assert!(!char_is_whitespace('\u{FEFF}'));
    assert!(!char_is_whitespace('\u{10FFFF}'));
}
