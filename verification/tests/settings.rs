use config::{Config, ConfigError};
use dollar_rates::settings::{load_config, settings_of, AppConfig, ConfigLoadError, Setting};

fn source(pairs: &[(&str, i64)]) -> Result<Config, ConfigError> {
    let mut builder = Config::builder();
    for (key, value) in pairs {
        builder = builder.set_default(*key, *value).unwrap();
    }
    builder.build()
}

#[test]
fn both_settings_are_read() {
    let config = load_config(source(&[("port", 8080), ("interval_ms", 60_000)])).unwrap();
    assert_eq!(config, AppConfig { port: 8080, interval_ms: 60_000 });
}

#[test]
fn a_missing_port_is_a_field_error() {
    match load_config(source(&[("interval_ms", 60_000)])) {
        Err(ConfigLoadError::Field(ConfigError::NotFound(key))) => assert_eq!(key, "port"),
        other => panic!("{:?}", other),
    }
}

#[test]
fn a_missing_interval_is_a_field_error() {
    match load_config(source(&[("port", 8080)])) {
        Err(ConfigLoadError::Field(ConfigError::NotFound(key))) => assert_eq!(key, "interval_ms"),
        other => panic!("{:?}", other),
    }
}

#[test]
fn the_port_is_looked_up_first() {
    match load_config(source(&[])) {
        Err(ConfigLoadError::Field(ConfigError::NotFound(key))) => assert_eq!(key, "port"),
        other => panic!("{:?}", other),
    }
}

#[test]
fn a_setting_of_another_type_is_a_field_error() {
    let source = Config::builder()
        .set_default("port", "eighty")
        .unwrap()
        .set_default("interval_ms", 60_000)
        .unwrap()
        .build();
    assert!(matches!(load_config(source), Err(ConfigLoadError::Field(_))));
}

#[test]
fn a_source_that_failed_is_a_source_error() {
    let failed = Err(ConfigError::Message("no such file".to_string()));
    match load_config(failed) {
        Err(ConfigLoadError::Source(ConfigError::Message(message))) => {
            assert_eq!(message, "no such file")
        }
        other => panic!("{:?}", other),
    }
}

#[test]
fn an_integer_that_is_no_port_fails_the_load() {
    for port in [70_000, 65_536, -1, i64::MAX, i64::MIN] {
        match load_config(source(&[("port", port), ("interval_ms", 60_000)])) {
            Err(ConfigLoadError::Range(Setting::Port, value)) => assert_eq!(value, port),
            other => panic!("{:?}", other),
        }
    }
}

#[test]
fn a_negative_interval_fails_the_load() {
    for interval in [-1, -60_000, i64::MIN] {
        match load_config(source(&[("port", 8080), ("interval_ms", interval)])) {
            Err(ConfigLoadError::Range(Setting::IntervalMs, value)) => assert_eq!(value, interval),
            other => panic!("{:?}", other),
        }
    }
}

#[test]
fn the_settings_at_the_ends_of_their_ranges_are_read() {
    let config = load_config(source(&[("port", 0), ("interval_ms", 0)])).unwrap();
    assert_eq!(config, AppConfig { port: 0, interval_ms: 0 });
    let config = load_config(source(&[("port", 65_535), ("interval_ms", i64::MAX)])).unwrap();
    assert_eq!(config, AppConfig { port: 65_535, interval_ms: 9_223_372_036_854_775_807 });
}

#[test]
fn settings_of_two_integers() {
    assert_eq!(settings_of(8080, 60_000).unwrap(), AppConfig { port: 8080, interval_ms: 60_000 });
    assert!(matches!(settings_of(70_000, 60_000), Err(ConfigLoadError::Range(Setting::Port, 70_000))));
    assert!(matches!(settings_of(8080, -1), Err(ConfigLoadError::Range(Setting::IntervalMs, -1))));
    assert!(matches!(settings_of(-5, -1), Err(ConfigLoadError::Range(Setting::Port, -5))));
}

#[test]
fn a_missing_setting_is_reported_before_a_range() {
    match load_config(source(&[("port", 70_000)])) {
        Err(ConfigLoadError::Field(ConfigError::NotFound(key))) => assert_eq!(key, "interval_ms"),
        other => panic!("{:?}", other),
    }
}

#[test]
fn the_keys_of_the_settings() {
    assert_eq!(Setting::Port.key(), "port");
    assert_eq!(Setting::IntervalMs.key(), "interval_ms");
}

#[test]
fn the_messages_of_range_errors() {
    assert_eq!(
        ConfigLoadError::Range(Setting::Port, 70_000).to_string(),
        "[config load error] range error: port cannot be 70000"
    );
    assert_eq!(
        ConfigLoadError::Range(Setting::IntervalMs, -1).to_string(),
        "[config load error] range error: interval_ms cannot be -1"
    );
    assert_eq!(
        ConfigLoadError::Range(Setting::Port, i64::MIN).to_string(),
        "[config load error] range error: port cannot be -9223372036854775808"
    );
    assert_eq!(
        ConfigLoadError::Range(Setting::Port, i64::MAX).to_string(),
        "[config load error] range error: port cannot be 9223372036854775807"
    );
    assert_eq!(
        ConfigLoadError::Range(Setting::IntervalMs, 0).to_string(),
        "[config load error] range error: interval_ms cannot be 0"
    );
}

#[test]
fn the_messages_of_load_errors() {
    let error = ConfigLoadError::Source(ConfigError::Message("no such file".to_string()));
    assert_eq!(error.to_string(), "[config load error] source error: no such file");
    let error = load_config(source(&[])).unwrap_err();
    assert_eq!(
        error.to_string(),
        format!(
            "[config load error] field error: {}",
            ConfigError::NotFound("port".to_string())
        )
    );
}
