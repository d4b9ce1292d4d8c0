use pusa_ui::llm_settings::{
    CredentialForm,
    api_key_for_upsert, base_after_provider_switch, commit_credential_name, display_credential_name,
    display_name, openai_setup_config, LlmCredentialDto,
    format_llm_settings_error, host_from_openai_base, is_local_or_private_openai_base,
    is_loopback_or_private_host, is_unspecified_api_key, mask_api_key, new_credential_body,
    parse_ipv4, provider_label, renamed_label, LlmApiProvider, NameCommit,
    EMPTY_API_KEY_SENTINEL,
};

#[test]
fn local_loopback_bases_allow_empty_key() {
    for base in [
        "http://127.0.0.1:1234/v1",
        "http://localhost:1234/v1",
        "HTTP://LOCALHOST/v1",
        "http://[::1]:1234/v1",
        "http://[0:0:0:0:0:0:0:1]/v1",
        "http://192.168.1.10:8080/v1",
        "http://10.0.0.5/v1",
        "http://172.16.0.1/v1",
        "http://172.31.255.1:8000/v1",
    ] {
        assert!(
            is_local_or_private_openai_base(base),
            "expected local/private: {base}"
        );
    }
}

#[test]
fn public_bases_are_not_classified_local() {
    for base in [
        "https://api.openai.com/v1",
        "https://api.anthropic.com/v1",
        "https://openrouter.ai/api/v1",
        "http://8.8.8.8/v1",
        "http://172.15.0.1/v1",
        "http://172.32.0.1/v1",
        "",
    ] {
        assert!(
            !is_local_or_private_openai_base(base),
            "expected public/empty: {base}"
        );
    }
}

#[test]
fn empty_and_sentinel_keys_mask_as_unset() {
    assert_eq!(mask_api_key(""), "未填写");
    assert_eq!(mask_api_key(EMPTY_API_KEY_SENTINEL), "未填写");
    assert_eq!(api_key_for_upsert("  "), EMPTY_API_KEY_SENTINEL);
}

#[test]
fn raw_error_codes_are_not_shown_verbatim() {
    let msg = format_llm_settings_error("api_key_required");
    assert!(!msg.contains("api_key_required"));
    assert!(!msg.is_empty());
    let wrapped = format_llm_settings_error("llm_credential_upsert: api_key_required");
    assert!(!wrapped.contains("api_key_required"));
}

#[test]
fn renamed_label_skips_unchanged_provider_fallback() {
    assert_eq!(renamed_label("OpenAI", "", LlmApiProvider::Openai), None);
    assert_eq!(
        renamed_label("LM Studio", "", LlmApiProvider::Openai),
        Some("LM Studio".into())
    );
}

#[test]
fn host_is_taken_from_authority() {
    assert_eq!(host_from_openai_base("http://user:pw@host.lan:80/v1").as_deref(), Some("host.lan"));
    assert_eq!(host_from_openai_base("http://[fe80::1]:8080/v1").as_deref(), Some("fe80::1"));
    assert_eq!(host_from_openai_base("fe80::2/v1").as_deref(), Some("fe80::2"));
    assert_eq!(host_from_openai_base("example.com/v1?x").as_deref(), Some("example.com"));
    assert_eq!(host_from_openai_base("   "), None);
    assert_eq!(host_from_openai_base("http:///v1").as_deref(), Some("v1"));
    assert_eq!(host_from_openai_base("http://?x"), None);
    assert_eq!(host_from_openai_base("http://[broken/v1"), None);
}

#[test]
fn ipv4_parsing_follows_u8_rules() {
    assert_eq!(parse_ipv4("10.0.0.1"), Some([10, 0, 0, 1]));
    assert_eq!(parse_ipv4("+1.2.3.4"), Some([1, 2, 3, 4]));
    assert_eq!(parse_ipv4("256.0.0.1"), None);
    assert_eq!(parse_ipv4("1.2.3"), None);
    assert_eq!(parse_ipv4("1.2.3.4.5"), None);
    assert_eq!(parse_ipv4("1..2.3"), None);
    assert!(is_loopback_or_private_host("  [::1]  "));
    assert!(!is_loopback_or_private_host("localhost.evil"));
}

#[test]
fn keys_are_masked_to_ends() {
    assert_eq!(mask_api_key("  sk-1234  "), "••••");
    assert_eq!(mask_api_key("sk-abcdefghijkl"), "sk-a…ijkl");
    assert!(is_unspecified_api_key("  __pusa_no_key__ "));
    assert!(!is_unspecified_api_key("x"));
    assert_eq!(api_key_for_upsert("  key "), "key");
}

#[test]
fn error_messages_pick_the_right_sentence() {
    assert_eq!(format_llm_settings_error("   "), "操作失败，请稍后重试。");
    assert_eq!(
        format_llm_settings_error("x: OPENAI_API_KEY_MISSING"),
        "当前对话还没有可用的模型端点。"
    );
    assert_eq!(format_llm_settings_error("net/\"some_code\"\n"), "操作失败，请稍后重试。");
    assert_eq!(format_llm_settings_error("Network down"), "Network down");
    assert_eq!(format_llm_settings_error("plainword"), "plainword");
}

#[test]
fn names_and_new_credentials() {
    assert_eq!(provider_label(LlmApiProvider::Anthropic), "Anthropic");
    assert_eq!(display_name(LlmApiProvider::Anthropic, "  "), "Anthropic");
    assert_eq!(display_name(LlmApiProvider::Openai, " Work "), "Work");
    match commit_credential_name("  ", "Work", LlmApiProvider::Openai) {
        NameCommit::Reset(s) => assert_eq!(s, "Work"),
        _ => panic!("expected reset"),
    }
    match commit_credential_name(" Home ", "Work", LlmApiProvider::Openai) {
        NameCommit::Rename(s) => assert_eq!(s, "Home"),
        _ => panic!("expected rename"),
    }
    assert!(matches!(commit_credential_name("Work", "Work", LlmApiProvider::Openai), NameCommit::Keep));
    let body = new_credential_body(LlmApiProvider::Anthropic, " ", "", "  ", "https://api.anthropic.com/v1");
    assert_eq!(body.id, None);
    assert_eq!(body.api_key, EMPTY_API_KEY_SENTINEL);
    assert_eq!(body.openai_v1_base, "https://api.anthropic.com/v1");
    assert_eq!(body.label, "Anthropic");
    assert_eq!(
        base_after_provider_switch(" https://a/v1 ", "https://a/v1", "https://b/v1").as_deref(),
        Some("https://b/v1")
    );
    assert_eq!(base_after_provider_switch("https://c/v1", "https://a/v1", "https://b/v1"), None);
}

#[test]
fn credential_name_falls_back_to_provider() {
    let cred = |label: &str| LlmCredentialDto {
        id: "c1".into(),
        provider: LlmApiProvider::Anthropic,
        api_key: String::new(),
        openai_v1_base: String::new(),
        label: label.into(),
    };
    assert_eq!(display_credential_name(&cred("Work")), display_name(LlmApiProvider::Anthropic, "Work"));
    assert_eq!(display_credential_name(&cred("  ")), display_name(LlmApiProvider::Anthropic, "  "));
}

#[test]
fn openai_setup_needs_a_key() {
    assert_eq!(openai_setup_config("  ", "x", "https://api.openai.com/v1"), None);
    assert_eq!(
        openai_setup_config(" sk-1 ", " ", "https://api.openai.com/v1"),
        Some(("sk-1".to_string(), "https://api.openai.com/v1".to_string()))
    );
    assert_eq!(
        openai_setup_config("sk-2", " http://127.0.0.1:1234/v1 ", "https://api.openai.com/v1"),
        Some(("sk-2".to_string(), "http://127.0.0.1:1234/v1".to_string()))
    );
}

fn defaults() -> pusa_ui::llm_settings::ProviderDefaults {
    pusa_ui::llm_settings::ProviderDefaults {
        openai: "https://api.openai.com/v1".to_string(),
        anthropic: "https://api.anthropic.com/v1".to_string(),
    }
}

#[test]
fn add_form_submit_sends_body_and_resets() {
    let d = defaults();
    let mut form = CredentialForm::closed(&d);
    form.open_form(&d);
    assert!(form.open);
    form.switch_provider(LlmApiProvider::Anthropic, &d);
    assert_eq!(form.base, "https://api.anthropic.com/v1");
    form.label = "  Work ".to_string();
    form.api_key = " sk-9 ".to_string();
    let body = form.submit(&d);
    assert!(body.id.is_none());
    assert_eq!(body.provider, LlmApiProvider::Anthropic);
    assert_eq!(body.label, "Work");
    assert_eq!(body.openai_v1_base, "https://api.anthropic.com/v1");
    assert_eq!(body.api_key, api_key_for_upsert(" sk-9 "));
    assert!(!form.open);
    assert_eq!(form.provider, LlmApiProvider::Openai);
    assert_eq!(form.label, "");
    assert_eq!(form.api_key, "");
    assert_eq!(form.base, "https://api.openai.com/v1");
}

#[test]
fn add_form_switch_keeps_a_custom_base() {
    let d = defaults();
    let mut form = CredentialForm::closed(&d);
    form.open_form(&d);
    form.base = "http://127.0.0.1:8000/v1".to_string();
    form.switch_provider(LlmApiProvider::Anthropic, &d);
    assert_eq!(form.base, "http://127.0.0.1:8000/v1");
    form.switch_provider(LlmApiProvider::Anthropic, &d);
    assert_eq!(form.provider, LlmApiProvider::Anthropic);
    form.base = "  ".to_string();
    form.switch_provider(LlmApiProvider::Openai, &d);
    assert_eq!(form.base, "https://api.openai.com/v1");
    form.reset(&d);
    assert!(!form.open);
}
