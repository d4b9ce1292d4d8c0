use pusa_ui::skills::{
    filter_installed_skills, skill_market_cards, station_cards, station_warnings, SkillMarketItemDto,
    apply_model_list, model_trigger_label, reconcile_chat_model, ChatModelEntry,
    apply_skill_uninstalled, InstalledSkillDto,
    default_skill_market_stations, fallback_chat_models, initial_chat_model,
    next_new_role_display_name, skill_equip_button_label, skill_market_fatal_error_for_ui,
    skill_market_warning_for_ui, skill_slug_equipped, skill_source_label,
    skill_station_warning_matches, DEFAULT_CHAT_MODEL_ID,
};

fn s(xs: &[&str]) -> Vec<String> {
    xs.iter().map(|x| x.to_string()).collect()
}

#[test]
fn new_role_names_count_up() {
    assert_eq!(next_new_role_display_name(&s(&[])), "新角色01");
    assert_eq!(next_new_role_display_name(&s(&["新角色01", " 新角色 07 ", "新角色 2322", "other"])), "新角色08");
    assert_eq!(next_new_role_display_name(&s(&["新角色99"])), "新角色100");
}

#[test]
fn market_warnings_hide_details() {
    assert_eq!(skill_market_warning_for_ui("ClawHub: timeout at url", false), "ClawHub：连接失败");
    assert_eq!(skill_market_warning_for_ui("腾讯 SkillHub: x", false), "腾讯 SkillHub：连接失败");
    assert_eq!(skill_market_warning_for_ui("weird", false), "技能市场：连接失败");
    assert_eq!(skill_market_warning_for_ui("weird", true), "weird");
    assert_eq!(skill_market_fatal_error_for_ui("anyhow", false), "无法加载技能市场（连接失败）");
    assert_eq!(skill_market_fatal_error_for_ui("anyhow", true), "anyhow");
    assert!(skill_station_warning_matches("SkillsMP: x", "skillsmp"));
    assert!(!skill_station_warning_matches("SkillsMP: x", "clawhub"));
    assert!(skill_station_warning_matches("anything", "other"));
}

#[test]
fn equipped_skills_match_by_key_or_base() {
    let eq = s(&["Binance/Spot", "okx"]);
    assert!(skill_slug_equipped(&eq, "binance/spot"));
    assert!(skill_slug_equipped(&eq, "spot"));
    assert!(skill_slug_equipped(&eq, "x/okx"));
    assert!(!skill_slug_equipped(&eq, "futures"));
    assert_eq!(skill_equip_button_label(&eq, "spot"), "忘却");
    assert_eq!(skill_equip_button_label(&eq, "futures"), "学习");
}

#[test]
fn sources_stations_and_models() {
    assert_eq!(skill_source_label("tencent-skillhub"), "腾讯 SkillHub");
    assert_eq!(skill_source_label("x"), "技能市场");
    let st = default_skill_market_stations();
    assert_eq!(st.len(), 3);
    assert_eq!(st[1].homepage, "https://skillsmp.com");
    let models = fallback_chat_models();
    assert_eq!(models[0].id, DEFAULT_CHAT_MODEL_ID);
    assert_eq!(models[1].display_name.as_deref(), Some("最新推理"));
    assert_eq!(initial_chat_model(None), "gpt-5.4");
    assert_eq!(initial_chat_model(Some("m".into())), "m");
}

#[test]
fn uninstalled_skill_leaves_lists_and_selection() {
    let mut installed = vec![
        InstalledSkillDto { slug: "Binance/Spot".into(), title: "Spot".into(), description: String::new() },
        InstalledSkillDto { slug: "weather".into(), title: "Weather".into(), description: String::new() },
    ];
    let mut equipped = vec!["binance/spot".to_string(), "weather".to_string()];
    let mut selected = Some("binance/spot".to_string());
    let tab = apply_skill_uninstalled(&mut installed, &mut equipped, &mut selected, "binance/spot");
    assert_eq!(tab, "skill:installed:binance/spot");
    assert_eq!(installed.len(), 1);
    assert_eq!(installed[0].slug, "weather");
    assert_eq!(equipped, vec!["weather".to_string()]);
    assert_eq!(selected, None);
    let mut other = Some("weather".to_string());
    let _ = apply_skill_uninstalled(&mut installed, &mut equipped, &mut other, "nothing");
    assert_eq!(other.as_deref(), Some("weather"));
    assert_eq!(installed.len(), 1);
}

#[test]
fn model_list_replaces_or_keeps_fallback() {
    let mut models = fallback_chat_models();
    let hint = apply_model_list(&mut models, Ok(vec![]));
    assert_eq!(hint.as_deref(), Some("模型列表为空，已使用本地默认"));
    assert_eq!(models.len(), 2);
    let hint = apply_model_list(&mut models, Err("down".into()));
    assert_eq!(hint.as_deref(), Some("模型列表暂时不可用，已使用本地默认"));
    let hint = apply_model_list(&mut models, Ok(vec![ChatModelEntry { id: "m1".into(), display_name: None }]));
    assert!(hint.is_none());
    assert_eq!(models.len(), 1);
    assert_eq!(models[0].id, "m1");
}

#[test]
fn chosen_model_falls_back_to_first_offered() {
    let models = vec![
        ChatModelEntry { id: "a".into(), display_name: None },
        ChatModelEntry { id: "b".into(), display_name: Some("B".into()) },
    ];
    assert_eq!(reconcile_chat_model(&models, "b"), None);
    assert_eq!(reconcile_chat_model(&models, "gone").as_deref(), Some("a"));
    assert_eq!(reconcile_chat_model(&vec![], "gone"), None);
    assert_eq!(model_trigger_label("gpt-5.4"), "GPT-5.4");
}

fn market(id: &str, name: &str, author: &str, source: &str) -> SkillMarketItemDto {
    SkillMarketItemDto {
        id: id.into(),
        name: name.into(),
        description: String::new(),
        author: author.into(),
        source: source.into(),
        downloads: 0,
        stars: 0,
        installed: false,
        installable: true,
        install_url: None,
    }
}

#[test]
fn market_cards_filter_and_key() {
    let items = vec![market("1", "Weather", "alice", "clawhub"), market("2", "Spot", "BOB", "skillsmp")];
    let all = skill_market_cards(&items, "  ");
    assert_eq!(all.len(), 2);
    assert_eq!(all[0].install_key, "clawhub:1");
    assert_eq!(all[0].source_label, "ClawHub");
    let bob = skill_market_cards(&items, " Bob");
    assert_eq!(bob.len(), 1);
    assert_eq!(bob[0].item.id, "2");
    let only = station_cards(&all, "skillsmp");
    assert_eq!(only.len(), 1);
    assert_eq!(only[0].install_key, "skillsmp:2");
}

#[test]
fn station_warnings_and_installed_filter() {
    let ws = vec!["ClawHub 暂时不可用".to_string(), "SkillsMP 超时".to_string()];
    assert_eq!(station_warnings(&ws, "skillsmp"), vec!["SkillsMP 超时".to_string()]);
    let installed = vec![
        InstalledSkillDto { slug: "weather".into(), title: "Weather".into(), description: "Forecast".into() },
        InstalledSkillDto { slug: "spot".into(), title: "Spot".into(), description: "Trading".into() },
    ];
    assert_eq!(filter_installed_skills(&installed, "FORE").len(), 1);
    assert_eq!(filter_installed_skills(&installed, "").len(), 2);
    assert_eq!(filter_installed_skills(&installed, "spot")[0].slug, "spot");
}
