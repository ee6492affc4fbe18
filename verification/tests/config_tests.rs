use i18n_transform::{
    default_runtime_function, get_pair_mapping, is_translation_fn, Arg, Expr, PluginConfig,
    TransformVisitor, Translations,
};

#[test]
fn default_config_when_absent() {
    let c = PluginConfig::from_options(None);
    assert_eq!(c.runtime_function, "__i18n_lookup");
    assert_eq!(default_runtime_function(), "__i18n_lookup");
}

#[test]
fn configured_runtime_function_used() {
    // A configured name changes only the callee of rewritten calls.
    let c = PluginConfig::from_options(Some("{\"runtimeFunction\": \"lookup\"}"));
    assert_eq!(c.runtime_function, "lookup");
    let v = TransformVisitor::new(c);
    let out = v.transform_expr(Expr::Call(
        Box::new(Expr::Ident("it".to_string())),
        vec![
            Arg { spread: false, expr: Expr::Str("안녕".to_string()) },
            Arg { spread: false, expr: Expr::Str("hello".to_string()) },
        ],
    ));
    match out {
        Expr::Call(callee, args) => {
            assert_eq!(*callee, Expr::Ident("lookup".to_string()));
            assert_eq!(args.len(), 2);
            assert_eq!(args[0].expr, Expr::Str("3beb11af".to_string()));
        },
        other => panic!("expected a call, got {:?}", other),
    }
}

#[test]
fn malformed_config_falls_back_to_default() {
    let c = PluginConfig::from_options(Some("not json at all"));
    assert_eq!(c.runtime_function, "__i18n_lookup");
}

#[test]
fn empty_object_config_falls_back_to_default() {
    let c = PluginConfig::from_options(Some("{}"));
    assert_eq!(c.runtime_function, "__i18n_lookup");
}

#[test]
fn wrong_type_config_falls_back_to_default() {
    let c = PluginConfig::from_options(Some("{\"runtimeFunction\": 5}"));
    assert_eq!(c.runtime_function, "__i18n_lookup");
}

#[test]
fn unknown_keys_ignored() {
    let c = PluginConfig::from_options(Some(
        "{\"other\": true, \"runtimeFunction\": \"t\", \"more\": [1]}",
    ));
    assert_eq!(c.runtime_function, "t");
}

#[test]
fn recognized_names() {
    for name in [
        "it", "it_ja", "it_zh", "it_es", "it_fr", "it_de", "en_ja", "en_zh", "en_es", "en_fr",
        "en_de", "ja_zh", "ja_es", "zh_es",
    ] {
        assert!(is_translation_fn(name));
    }
    assert!(!is_translation_fn("its"));
    assert!(!is_translation_fn("__i18n_lookup"));
    assert!(!is_translation_fn(""));
}

#[test]
fn pair_mapping_values() {
    assert_eq!(get_pair_mapping("it"), ("ko", "en"));
    assert_eq!(get_pair_mapping("it_ja"), ("ko", "ja"));
    assert_eq!(get_pair_mapping("en_zh"), ("en", "zh"));
    assert_eq!(get_pair_mapping("ja_es"), ("ja", "es"));
    assert_eq!(get_pair_mapping("zh_es"), ("zh", "es"));
    // The defensive default for names outside the recognized set.
    assert_eq!(get_pair_mapping("nope"), ("ko", "en"));
}

#[test]
fn translations_insert_keeps_first_position_and_last_value() {
    let mut t = Translations::new();
    t.insert("ko".to_string(), "a".to_string());
    t.insert("en".to_string(), "b".to_string());
    t.insert("ko".to_string(), "c".to_string());
    assert_eq!(t.len(), 2);
    let first = t.entry_at(0);
    assert_eq!(first.0, "ko");
    assert_eq!(first.1, "c");
    let second = t.entry_at(1);
    assert_eq!(second.0, "en");
    assert_eq!(second.1, "b");
    assert_eq!(t.first_value(), "c");
}
