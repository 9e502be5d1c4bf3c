use rust_doc_tool::config::{
    clean_path_input, expand_project_path, expand_tilde, get_config_path, get_output_path,
    load_config_decision, next_generation_action, validate_project_path, Config, ConfigError,
    ConfigReadEvent, GenerateStep,
};

#[test]
fn fixed_locations() {
    assert_eq!(get_config_path(), "user/tool_config.json");
    assert_eq!(get_output_path(), "output");
}

#[test]
fn default_config_has_no_path() {
    let c = Config::default();
    assert!(c.project_path.is_none());
}

#[test]
fn cleaning_strips_whitespace_and_quotes() {
    assert_eq!(clean_path_input("  /home/me/proj  "), "/home/me/proj");
    assert_eq!(clean_path_input("\"/home/me/proj\""), "/home/me/proj");
    assert_eq!(clean_path_input("  \"/with space/p\"\t"), "/with space/p");
    assert_eq!(clean_path_input("plain"), "plain");
    assert_eq!(clean_path_input(""), "");
}

#[test]
fn tilde_free_paths_pass_through() {
    assert_eq!(expand_tilde(&"/abs/path".to_string()), "/abs/path");
    assert_eq!(expand_tilde(&"rel/path".to_string()), "rel/path");
    assert_eq!(expand_tilde(&"".to_string()), "");
}

#[test]
fn missing_project_path_is_reported() {
    let c = Config { project_path: None };
    match expand_project_path(&c).unwrap_err() {
        ConfigError::ProjectPathNotSet => {}
        other => panic!("unexpected error: {:?}", other),
    }
    let c2 = Config { project_path: Some("/proj".to_string()) };
    assert_eq!(expand_project_path(&c2).unwrap(), "/proj");
}

#[test]
fn validation_verdicts() {
    assert_eq!(validate_project_path("/p".to_string(), true).unwrap(), "/p");
    match validate_project_path("/bad".to_string(), false).unwrap_err() {
        ConfigError::InvalidProjectPath(p) => assert_eq!(p, "/bad"),
        other => panic!("unexpected error: {:?}", other),
    }
}

#[test]
fn load_decisions() {
    let (r, del) = load_config_decision(ConfigReadEvent::FileRead {
        trimmed_empty: true,
        parsed: None,
    });
    assert!(r.unwrap().project_path.is_none());
    assert!(del);

    let stored = Config { project_path: Some("/proj".to_string()) };
    let (r, del) = load_config_decision(ConfigReadEvent::FileRead {
        trimmed_empty: false,
        parsed: Some(stored.clone()),
    });
    assert_eq!(r.unwrap(), stored);
    assert!(!del);

    let (r, del) = load_config_decision(ConfigReadEvent::FileRead {
        trimmed_empty: false,
        parsed: None,
    });
    assert!(r.unwrap().project_path.is_none());
    assert!(del);

    let (r, del) = load_config_decision(ConfigReadEvent::NotFound);
    assert!(r.unwrap().project_path.is_none());
    assert!(!del);

    let (r, del) = load_config_decision(ConfigReadEvent::ReadFailed {
        message: "denied".to_string(),
    });
    match r.unwrap_err() {
        ConfigError::Io(m) => assert_eq!(m, "denied"),
        other => panic!("unexpected error: {:?}", other),
    }
    assert!(!del);
}

#[test]
fn generation_flow_decisions() {
    match next_generation_action(Ok("/proj".to_string())) {
        GenerateStep::Proceed { project_path } => assert_eq!(project_path, "/proj"),
        _ => panic!("expected Proceed"),
    }
    assert!(matches!(
        next_generation_action(Err(ConfigError::ProjectPathNotSet)),
        GenerateStep::PromptAndRetry
    ));
    assert!(matches!(
        next_generation_action(Err(ConfigError::InvalidProjectPath("/x".to_string()))),
        GenerateStep::PromptAndRetry
    ));
    assert!(matches!(
        next_generation_action(Err(ConfigError::Io("boom".to_string()))),
        GenerateStep::Abort { .. }
    ));
}
