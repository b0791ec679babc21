use app_bootstrap::app_config::{config, AppConfig, ConfigError, EnvEntry};
use app_bootstrap::num::Decimal;

fn dec(neg: bool, mantissa: u64, scale: u32) -> Decimal {
    Decimal { neg, mantissa, scale }
}

fn env_entry(name: &str, value: &str) -> EnvEntry {
    EnvEntry { name: name.as_bytes().to_vec(), value: value.as_bytes().to_vec() }
}

fn load_text(text: &str, env: Vec<EnvEntry>) -> Result<AppConfig, ConfigError> {
    AppConfig::load(&Some(text.as_bytes().to_vec()), &env)
}

#[test]
fn test_app_config_struct_creation() {
    let config = AppConfig {
        debug: true,
        fixversion: dec(false, 44, 1),
    };

    assert_eq!(config.debug, true);
    assert_eq!(config.fixversion, dec(false, 44, 1));
}

#[test]
fn test_app_config_clone() {
    let original = AppConfig {
        debug: true,
        fixversion: dec(false, 25, 1),
    };

    let cloned = original.clone();

    assert_eq!(original.debug, cloned.debug);
    assert_eq!(original.fixversion, cloned.fixversion);
}

#[test]
fn test_app_config_debug_trait() {
    let config = AppConfig {
        debug: true,
        fixversion: dec(false, 314, 2),
    };

    let debug_string = String::from_utf8(config.describe()).unwrap();
    assert!(debug_string.contains("debug: true"));
    assert!(debug_string.contains("fixversion: 3.14"));
}

#[test]
fn test_app_config_load_from_valid_toml() {
    let test_toml_content = "\ndebug = false\nfixversion = 1.5\n";

    let result = load_text(test_toml_content, vec![]);

    match result {
        Ok(config) => {
            assert_eq!(config.debug, false);
            assert_eq!(config.fixversion, dec(false, 15, 1));
        }
        Err(_) => panic!("Should have successfully loaded config"),
    }
}

#[test]
fn test_app_config_load_invalid_toml() {
    let test_toml_content = "\ndebug = \"not_a_boolean\"\nfixversion = \"not_a_number\"\n";

    let result = load_text(test_toml_content, vec![]);

    assert!(result.is_err());
    assert_eq!(result.unwrap_err(), ConfigError::TypeMismatch);
}

#[test]
fn test_app_config_environment_override() {
    let test_toml_content = "\ndebug = false\nfixversion = 1.0\n";

    let env = vec![env_entry("APP_DEBUG", "true"), env_entry("APP_FIXVERSION", "5.5")];
    let result = load_text(test_toml_content, env);

    match result {
        Ok(config) => {
            assert_eq!(config.debug, true);
            assert_eq!(config.fixversion, dec(false, 55, 1));
        }
        Err(_) => panic!("Should have successfully loaded config with env overrides"),
    }
}

#[test]
fn test_app_config_missing_file() {
    let result = AppConfig::load(&None, &vec![]);

    assert!(result.is_err());
    assert_eq!(result.unwrap_err(), ConfigError::SourceUnavailable);
}

#[test]
fn test_app_config_partial_config() {
    let test_toml_content = "\ndebug = true\n";

    let result = load_text(test_toml_content, vec![]);

    assert!(result.is_err());
    assert_eq!(result.unwrap_err(), ConfigError::MissingField);
}

#[test]
fn test_app_config_empty_file() {
    let result = load_text("", vec![]);

    assert!(result.is_err());
    assert_eq!(result.unwrap_err(), ConfigError::MissingField);
}

#[test]
fn parse_error_on_malformed_line() {
    let result = load_text("debug false\nfixversion = 1.5\n", vec![]);
    assert_eq!(result.unwrap_err(), ConfigError::ParseError);
}

#[test]
fn parse_error_on_duplicate_key() {
    let result = load_text("debug = true\ndebug = false\nfixversion = 1.5\n", vec![]);
    assert_eq!(result.unwrap_err(), ConfigError::ParseError);
}

#[test]
fn type_mismatch_on_bad_env_override() {
    let env = vec![env_entry("APP_DEBUG", "yes")];
    let result = load_text("debug = true\nfixversion = 1.5\n", env);
    assert_eq!(result.unwrap_err(), ConfigError::TypeMismatch);
}

#[test]
fn env_override_is_case_insensitive() {
    let env = vec![env_entry("app_debug", "true")];
    let result = load_text("debug = false\nfixversion = 2.0\n", env);
    assert_eq!(
        result.unwrap(),
        AppConfig { debug: true, fixversion: dec(false, 20, 1) }
    );
}

#[test]
fn env_alone_cannot_replace_missing_file() {
    let env = vec![env_entry("APP_DEBUG", "true"), env_entry("APP_FIXVERSION", "1.0")];
    let result = AppConfig::load(&None, &env);
    assert_eq!(result.unwrap_err(), ConfigError::SourceUnavailable);
}

#[test]
fn precedence_single_key_override() {
    let env = vec![env_entry("APP_FIXVERSION", "9.25")];
    let result = load_text("debug = false\nfixversion = 1.5\n", env);
    assert_eq!(
        result.unwrap(),
        AppConfig { debug: false, fixversion: dec(false, 925, 2) }
    );
}

#[test]
fn determinism_same_state_same_result() {
    let text = "debug = true\nfixversion = 7.5\n";
    let env = || vec![env_entry("APP_FIXVERSION", "8.5")];
    let first = load_text(text, env());
    let second = load_text(text, env());
    assert_eq!(first, second);
    assert_eq!(first.unwrap(), AppConfig { debug: true, fixversion: dec(false, 85, 1) });

    let failing_first = load_text("debug = true\n", vec![]);
    let failing_second = load_text("debug = true\n", vec![]);
    assert_eq!(failing_first, failing_second);
}

#[test]
fn comments_and_blank_lines_are_ignored() {
    let text = "# build settings\n\n  debug = true  \n\nfixversion = 1.5\n# trailing note\n";
    let result = load_text(text, vec![]);
    assert_eq!(result.unwrap(), AppConfig { debug: true, fixversion: dec(false, 15, 1) });
}

#[test]
fn unknown_keys_are_ignored() {
    let text = "debug = true\nfixversion = 1.5\nworkers = 4\n";
    let result = load_text(text, vec![]);
    assert_eq!(result.unwrap(), AppConfig { debug: true, fixversion: dec(false, 15, 1) });
}

#[test]
fn config_returns_resolved_record() {
    let file = Some("debug = false\nfixversion = 1.5\n".as_bytes().to_vec());
    let c = config(&file, &vec![]);
    assert_eq!(c, AppConfig { debug: false, fixversion: dec(false, 15, 1) });
}
