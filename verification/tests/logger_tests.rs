use service_api::logger::{
    ComponentLevel, ComponentUpdate, LogLevel, LoggerConfig, LoggerConfigDiff, LoggerHandle,
    ValidationError, parse_level,
};

fn sample_handle() -> LoggerHandle {
    LoggerHandle::new(LoggerConfig {
        default_level: LogLevel::Info,
        components: vec![
            ComponentLevel { name: "storage".to_string(), level: LogLevel::Warn },
            ComponentLevel { name: "api".to_string(), level: LogLevel::Info },
        ],
    })
}

#[test]
fn parse_level_recognizes_each_name() {
    assert_eq!(parse_level(&"off".to_string()), Some(LogLevel::Off));
    assert_eq!(parse_level(&"error".to_string()), Some(LogLevel::Error));
    assert_eq!(parse_level(&"warn".to_string()), Some(LogLevel::Warn));
    assert_eq!(parse_level(&"info".to_string()), Some(LogLevel::Info));
    assert_eq!(parse_level(&"debug".to_string()), Some(LogLevel::Debug));
    assert_eq!(parse_level(&"trace".to_string()), Some(LogLevel::Trace));
    assert_eq!(parse_level(&"verbose".to_string()), None);
    assert_eq!(parse_level(&"Info".to_string()), None);
}

#[test]
fn valid_diff_takes_effect() {
    let mut handle = sample_handle();
    let result = handle.update_config(LoggerConfigDiff {
        default_level: Some("debug".to_string()),
        components: vec![ComponentUpdate {
            name: "storage".to_string(),
            level: "trace".to_string(),
        }],
    });
    assert_eq!(result, Ok(true));
    let config = handle.get_config();
    assert_eq!(config.default_level, LogLevel::Debug);
    assert_eq!(config.components[0].level, LogLevel::Trace);
    // The untouched component keeps its level.
    assert_eq!(config.components[1].level, LogLevel::Info);
}

#[test]
fn unset_fields_stay_unchanged() {
    let mut handle = sample_handle();
    let result = handle.update_config(LoggerConfigDiff {
        default_level: None,
        components: vec![ComponentUpdate { name: "api".to_string(), level: "error".to_string() }],
    });
    assert_eq!(result, Ok(true));
    let config = handle.get_config();
    assert_eq!(config.default_level, LogLevel::Info);
    assert_eq!(config.components[0].level, LogLevel::Warn);
    assert_eq!(config.components[1].level, LogLevel::Error);
}

#[test]
fn last_matching_update_wins() {
    let mut handle = sample_handle();
    let result = handle.update_config(LoggerConfigDiff {
        default_level: None,
        components: vec![
            ComponentUpdate { name: "storage".to_string(), level: "debug".to_string() },
            ComponentUpdate { name: "storage".to_string(), level: "off".to_string() },
        ],
    });
    assert_eq!(result, Ok(true));
    assert_eq!(handle.get_config().components[0].level, LogLevel::Off);
}

#[test]
fn unknown_component_rejected_without_change() {
    // An invalid field name leaves the configuration unchanged and reports a
    // validation failure.
    let mut handle = sample_handle();
    let before = handle.get_config();
    let result = handle.update_config(LoggerConfigDiff {
        default_level: None,
        components: vec![
            ComponentUpdate { name: "storage".to_string(), level: "debug".to_string() },
            ComponentUpdate { name: "nonsense".to_string(), level: "debug".to_string() },
        ],
    });
    assert_eq!(
        result,
        Err(ValidationError::UnknownComponent { name: "nonsense".to_string() })
    );
    assert_eq!(handle.get_config(), before);
}

#[test]
fn invalid_level_rejected_without_change() {
    let mut handle = sample_handle();
    let before = handle.get_config();
    let result = handle.update_config(LoggerConfigDiff {
        default_level: None,
        components: vec![ComponentUpdate {
            name: "storage".to_string(),
            level: "loud".to_string(),
        }],
    });
    assert_eq!(
        result,
        Err(ValidationError::InvalidLevel {
            name: "storage".to_string(),
            level: "loud".to_string(),
        })
    );
    assert_eq!(handle.get_config(), before);
}

#[test]
fn invalid_default_level_rejected_without_change() {
    let mut handle = sample_handle();
    let before = handle.get_config();
    let result = handle.update_config(LoggerConfigDiff {
        default_level: Some("loud".to_string()),
        components: vec![],
    });
    assert_eq!(
        result,
        Err(ValidationError::InvalidDefaultLevel { level: "loud".to_string() })
    );
    assert_eq!(handle.get_config(), before);
}

#[test]
fn validation_messages_name_the_field() {
    let e = ValidationError::UnknownComponent { name: "nonsense".to_string() };
    assert_eq!(e.message(), "unknown component: nonsense");
    let e = ValidationError::InvalidLevel { name: "storage".to_string(), level: "loud".to_string() };
    assert_eq!(e.message(), "invalid log level for storage: loud");
    let e = ValidationError::InvalidDefaultLevel { level: "loud".to_string() };
    assert_eq!(e.message(), "invalid default log level: loud");
}

#[test]
fn disjoint_diffs_apply_in_either_order() {
    let d1 = LoggerConfigDiff {
        default_level: None,
        components: vec![ComponentUpdate {
            name: "storage".to_string(),
            level: "trace".to_string(),
        }],
    };
    let d2 = LoggerConfigDiff {
        default_level: Some("error".to_string()),
        components: vec![ComponentUpdate { name: "api".to_string(), level: "off".to_string() }],
    };
    let mut first = sample_handle();
    assert_eq!(first.update_config(d1.clone()), Ok(true));
    assert_eq!(first.update_config(d2.clone()), Ok(true));
    let mut second = sample_handle();
    assert_eq!(second.update_config(d2), Ok(true));
    assert_eq!(second.update_config(d1), Ok(true));
    assert_eq!(first.get_config(), second.get_config());
    let config = first.get_config();
    assert_eq!(config.default_level, LogLevel::Error);
    assert_eq!(config.components[0].level, LogLevel::Trace);
    assert_eq!(config.components[1].level, LogLevel::Off);
}
