use rust_poc::config::{
    extract_account_key, parse_port, probe_environment, resolve_boot_plan, BootPlan, ConfigError,
    EnvSnapshot, SecretSource, DEFAULT_PORT,
};

#[test]
fn extract_account_key_typical() {
    let cs = "DefaultEndpointsProtocol=https;AccountName=foo;AccountKey=abc123==;EndpointSuffix=core.windows.net";
    assert_eq!(extract_account_key(cs).unwrap(), "abc123==");
}

#[test]
fn extract_account_key_first_entry_wins() {
    let cs = "AccountKey=one;AccountKey=two";
    assert_eq!(extract_account_key(cs).unwrap(), "one");
}

#[test]
fn extract_account_key_entry_alone() {
    assert_eq!(extract_account_key("AccountKey=").unwrap(), "");
}

#[test]
fn extract_account_key_missing() {
    assert_eq!(
        extract_account_key("AccountName=foo;EndpointSuffix=bar"),
        Err(ConfigError::MissingAccountKey)
    );
    assert_eq!(extract_account_key(""), Err(ConfigError::MissingAccountKey));
    assert_eq!(
        extract_account_key("accountkey=lowercase"),
        Err(ConfigError::MissingAccountKey)
    );
}

#[test]
fn extract_account_key_prefix_must_start_entry() {
    assert_eq!(
        extract_account_key("XAccountKey=nope"),
        Err(ConfigError::MissingAccountKey)
    );
}

#[test]
fn parse_port_accepts_valid_values() {
    assert_eq!(parse_port("8080"), Ok(8080));
    assert_eq!(parse_port("0"), Ok(0));
    assert_eq!(parse_port("65535"), Ok(65535));
    assert_eq!(parse_port("+443"), Ok(443));
    assert_eq!(parse_port("007"), Ok(7));
}

#[test]
fn parse_port_rejects_invalid_values() {
    assert_eq!(parse_port(""), Err(ConfigError::InvalidPort));
    assert_eq!(parse_port("+"), Err(ConfigError::InvalidPort));
    assert_eq!(parse_port("abc"), Err(ConfigError::InvalidPort));
    assert_eq!(parse_port("80a"), Err(ConfigError::InvalidPort));
    assert_eq!(parse_port("65536"), Err(ConfigError::InvalidPort));
    assert_eq!(parse_port("99999999999"), Err(ConfigError::InvalidPort));
    assert_eq!(parse_port("-1"), Err(ConfigError::InvalidPort));
    assert_eq!(parse_port(" 80"), Err(ConfigError::InvalidPort));
}

#[test]
fn probe_environment_goes_by_presence() {
    assert!(probe_environment(&Some("anything, even garbage".to_string())));
    assert!(!probe_environment(&None));
}

#[test]
fn resolve_without_any_secret_is_fatal() {
    let env = EnvSnapshot { cloud_indicator: None, local_secret: None, port_setting: None };
    assert_eq!(resolve_boot_plan(env).unwrap_err(), ConfigError::MissingLocalSecret);
}

#[test]
fn resolve_local_mode_defaults_port() {
    let env = EnvSnapshot {
        cloud_indicator: None,
        local_secret: Some("s3cr3t".to_string()),
        port_setting: None,
    };
    let plan: BootPlan = resolve_boot_plan(env).unwrap();
    assert!(!plan.running_in_cloud);
    assert_eq!(plan.port, DEFAULT_PORT);
    assert_eq!(plan.port, 8080);
    match plan.secret_source {
        SecretSource::LocalValue(s) => assert_eq!(s, "s3cr3t"),
        SecretSource::Vault => panic!("local mode must use the local secret"),
    }
}

#[test]
fn resolve_cloud_mode_uses_vault_and_ignores_local_secret() {
    let env = EnvSnapshot {
        cloud_indicator: Some("DefaultEndpointsProtocol=https;AccountName=x".to_string()),
        local_secret: None,
        port_setting: Some("9090".to_string()),
    };
    let plan = resolve_boot_plan(env).unwrap();
    assert!(plan.running_in_cloud);
    assert_eq!(plan.port, 9090);
    assert!(matches!(plan.secret_source, SecretSource::Vault));

    let env_with_local = EnvSnapshot {
        cloud_indicator: Some("set".to_string()),
        local_secret: Some("unused".to_string()),
        port_setting: Some("9090".to_string()),
    };
    let plan2 = resolve_boot_plan(env_with_local).unwrap();
    assert!(matches!(plan2.secret_source, SecretSource::Vault));
}

#[test]
fn resolve_invalid_port_is_fatal() {
    let env = EnvSnapshot {
        cloud_indicator: None,
        local_secret: Some("s3cr3t".to_string()),
        port_setting: Some("not-a-number".to_string()),
    };
    assert_eq!(resolve_boot_plan(env).unwrap_err(), ConfigError::InvalidPort);
}

#[test]
fn resolve_secret_error_precedes_port_error() {
    let env = EnvSnapshot {
        cloud_indicator: None,
        local_secret: None,
        port_setting: Some("not-a-number".to_string()),
    };
    assert_eq!(resolve_boot_plan(env).unwrap_err(), ConfigError::MissingLocalSecret);
}
