use ai_wiki_core::config::{AppConfig, ConfigError, ProcessConfig, ToolsConfig, WikiConfig};

#[test]
fn test_default_config_validates() {
    AppConfig::default().validate_tools().unwrap();
}

#[test]
fn test_validate_rejects_empty_tool_path() {
    let mut config = AppConfig::default();
    config.tools.qpdf_path = String::new();
    assert!(config.validate_tools().is_err());
}

#[test]
fn test_resolve_wiki() {
    let mut config = AppConfig::default();
    config.register_wiki("rust".to_string(), "/wikis/rust".to_string());

    let wiki = config.resolve_wiki("rust").unwrap();
    assert_eq!(wiki.name, "rust");
    assert_eq!(wiki.root, "/wikis/rust");
}

#[test]
fn test_resolve_wiki_not_found() {
    let config = AppConfig::default();
    let result = config.resolve_wiki("nonexistent");
    assert!(result.is_err());
}

#[test]
fn test_wiki_config_derived_paths() {
    let wiki = WikiConfig {
        name: "test".to_string(),
        root: "/wikis/test".to_string(),
    };
    assert_eq!(wiki.wiki_dir(), "/wikis/test/wiki");
    assert_eq!(wiki.processed_dir(), "/wikis/test/processed");
    assert_eq!(wiki.raw_dir(), "/wikis/test/raw");
    assert_eq!(wiki.database_path(), "/wikis/test/ai-wiki.db");
    assert_eq!(wiki.processed_text_path(42), "/wikis/test/processed/42.txt");
}

#[test]
fn test_register_wiki_overwrites() {
    let mut config = AppConfig::default();
    config.register_wiki("rust".to_string(), "/old/path".to_string());
    config.register_wiki("rust".to_string(), "/new/path".to_string());
    assert_eq!(config.resolve_wiki("rust").unwrap().root, "/new/path");
}

// ─── Further cases ───────────────────────────────────────────────────────────

#[test]
fn register_twice_keeps_one_entry() {
    let mut config = AppConfig::default();
    config.register_wiki("rust".to_string(), "/old/path".to_string());
    config.register_wiki("go".to_string(), "/go".to_string());
    config.register_wiki("rust".to_string(), "/new/path".to_string());
    assert_eq!(config.wiki_count(), 2);
    assert_eq!(config.wiki_names(), vec!["rust".to_string(), "go".to_string()]);
    assert_eq!(config.resolve_wiki("go").unwrap().root, "/go");
}

#[test]
fn default_tools_are_the_command_names() {
    let tools = ToolsConfig::default();
    assert_eq!(tools.qpdf_path, "qpdf");
    assert_eq!(tools.pdftotext_path, "pdftotext");
    assert_eq!(tools.pdftoppm_path, "pdftoppm");
    assert_eq!(tools.tesseract_path, "tesseract");
    assert_eq!(tools.ffmpeg_path, "ffmpeg");
    assert_eq!(tools.whisper_cpp_path, "whisper-cpp");
    assert_eq!(tools.whisper_model_path, "models/ggml-large-v3.bin");
}

#[test]
fn default_process_uses_subscription() {
    let p = ProcessConfig::default();
    assert_eq!(p.auth, "pro");
    assert!(p.model.is_none());
    assert_eq!(ProcessConfig::default_auth(), "pro");
}

#[test]
fn first_empty_tool_is_reported() {
    let mut config = AppConfig::default();
    config.tools.ffmpeg_path = String::new();
    config.tools.whisper_model_path = String::new();
    match config.validate_tools() {
        Err(e) => assert_eq!(e.message(), "tools.ffmpeg_path must not be empty"),
        Ok(()) => panic!("expected an error"),
    }
    let mut config = AppConfig::default();
    config.tools.whisper_model_path = String::new();
    match config.validate_tools() {
        Err(e) => assert_eq!(e.message(), "tools.whisper_model_path must not be empty"),
        Ok(()) => panic!("expected an error"),
    }
}

#[test]
fn not_found_lists_available_wikis() {
    let mut config = AppConfig::default();
    let err = config.resolve_wiki("x").unwrap_err();
    assert_eq!(err.message(), "wiki 'x' not found. No wikis registered.");
    config.register_wiki("a".to_string(), "/a".to_string());
    config.register_wiki("b".to_string(), "/b".to_string());
    let err = config.resolve_wiki("x").unwrap_err();
    assert_eq!(err.message(), "wiki 'x' not found. Available wikis: a, b");
    match err {
        ConfigError::WikiNotFound { name, available } => {
            assert_eq!(name, "x");
            assert_eq!(available.len(), 2);
        }
        _ => panic!("wrong error"),
    }
}

#[test]
fn auto_resolution_prefers_explicit_name_then_cwd() {
    let mut config = AppConfig::default();
    config.register_wiki("a".to_string(), "/a".to_string());
    let cwd = WikiConfig { name: "b".to_string(), root: "/b".to_string() };
    let w = config.resolve_wiki_auto(Some("a"), Some(cwd.clone())).unwrap();
    assert_eq!(w.name, "a");
    let w = config.resolve_wiki_auto(None, Some(cwd)).unwrap();
    assert_eq!(w.name, "b");
    let err = config.resolve_wiki_auto(None, None).unwrap_err();
    assert_eq!(
        err.message(),
        "no wiki specified and CWD is not under any wiki root. Available wikis: a"
    );
    let empty = AppConfig::default();
    assert_eq!(
        empty.resolve_wiki_auto(None, None).unwrap_err().message(),
        "no wiki specified and CWD is not under any wiki root. No wikis registered. Run `ai-wiki init` to create one."
    );
}

#[test]
fn working_directory_picks_deepest_root() {
    let mut config = AppConfig::default();
    config.register_wiki("outer".to_string(), "/w".to_string());
    config.register_wiki("inner".to_string(), "/w/sub".to_string());
    config.register_wiki("other".to_string(), "/x".to_string());
    let roots = vec![
        Some("/w".to_string()),
        Some("/w/sub".to_string()),
        Some("/x".to_string()),
    ];
    let w = config
        .find_wiki_by_dirs(Some("/w/sub/deeper"), Some("/w/sub/deeper"), &roots)
        .unwrap();
    assert_eq!(w.name, "inner");
    let w = config.find_wiki_by_dirs(Some("/w/a"), Some("/w/a"), &roots).unwrap();
    assert_eq!(w.name, "outer");
    assert!(config.find_wiki_by_dirs(Some("/y"), Some("/y"), &roots).is_none());
    assert!(config.find_wiki_by_dirs(None, None, &roots).is_none());
}

#[test]
fn working_directory_falls_back_to_raw_paths() {
    let mut config = AppConfig::default();
    config.register_wiki("w".to_string(), "/w".to_string());
    // The working directory could not be canonicalized: raw against raw.
    let roots = vec![Some("/elsewhere".to_string())];
    let w = config.find_wiki_by_dirs(Some("/w/x"), None, &roots).unwrap();
    assert_eq!(w.name, "w");
    // The root could not be canonicalized: raw against raw too.
    let roots = vec![None];
    let w = config.find_wiki_by_dirs(Some("/w/x"), Some("/real/w/x"), &roots).unwrap();
    assert_eq!(w.name, "w");
}

#[test]
fn wiki_at_lists_in_registration_order() {
    let mut config = AppConfig::default();
    config.register_wiki("one".to_string(), "/1".to_string());
    config.register_wiki("two".to_string(), "/2".to_string());
    let w = config.wiki_at(1);
    assert_eq!(w.name, "two");
    assert_eq!(w.root, "/2");
}

#[test]
fn processed_text_path_of_negative_and_relative_roots() {
    let wiki = WikiConfig { name: "t".to_string(), root: "rel".to_string() };
    assert_eq!(wiki.processed_text_path(-3), "rel/processed/-3.txt");
    let wiki = WikiConfig { name: "t".to_string(), root: "/slash/".to_string() };
    assert_eq!(wiki.wiki_dir(), "/slash/wiki");
}

#[test]
fn reregistering_a_name_keeps_one_entry() {
    let mut config = AppConfig::default();
    config.register_wiki("main".to_string(), "/old".to_string());
    config.register_wiki("side".to_string(), "/side".to_string());
    config.register_wiki("main".to_string(), "/w".to_string());
    assert_eq!(config.wiki_names(), vec!["main".to_string(), "side".to_string()]);
    let roots = vec![Some("/w".to_string()), Some("/side".to_string())];
    let w = config.find_wiki_by_dirs(Some("/w/notes"), Some("/w/notes"), &roots).unwrap();
    assert_eq!((w.name.as_str(), w.root.as_str()), ("main", "/w"));
    assert_eq!(config.resolve_wiki("main").unwrap().root, "/w");
}
