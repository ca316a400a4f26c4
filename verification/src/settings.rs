//! The settings of the service: the port it listens on and the time between
//! two scrapes.

use vstd::prelude::*;
use vstd::string::*;
use ::config::{Config, ConfigError};
use crate::error::{append_decimal, decimal_text};

verus! {

/// `config::Config`, the values that a configuration was built with.
#[verifier::external_type_specification]
#[verifier::external_body]
pub struct ExConfig(Config);

/// `config::ConfigError`, why a configuration could not be built or read.
#[verifier::external_type_specification]
#[verifier::external_body]
pub struct ExConfigError(ConfigError);

/// The integer that a configuration holds under a key, or why it holds
/// none.
pub uninterp spec fn config_int(settings: Config, key: Seq<char>) -> Result<i64, ConfigError>;

/// A configuration error in words.
pub uninterp spec fn config_error_text(error: ConfigError) -> Seq<char>;

/// `Config::get_int` looks a key up in the values that the configuration
/// was built with and converts what it finds to an integer. The result
/// depends on the configuration and the key alone.
#[verifier::external_body]
fn get_int(settings: &Config, key: &str) -> (value: Result<i64, ConfigError>)
    ensures
        value == config_int(*settings, key@),
{
    settings.get_int(key)
}

/// The `Display` of `ConfigError` writes the error out.
#[verifier::external_body]
fn error_text(error: &ConfigError) -> (text: String)
    ensures
        text@ == config_error_text(*error),
{
    error.to_string()
}

/// The settings that are read.
#[derive(Clone, Copy, Debug, PartialEq, Eq, Structural)]
pub enum Setting {
    /// The port that the service listens on.
    Port,
    /// The time between two scrapes, in milliseconds.
    IntervalMs,
}

/// The key of a setting.
pub open spec fn key_of(setting: Setting) -> Seq<char> {
    match setting {
        Setting::Port => "port"@,
        Setting::IntervalMs => "interval_ms"@,
    }
}

impl Setting {
    pub fn key(&self) -> (key: &'static str)
        ensures
            key@ == key_of(*self),
    {
        match self {
            Setting::Port => "port",
            Setting::IntervalMs => "interval_ms",
        }
    }
}

/// Why the settings could not be loaded.
#[derive(Debug)]
pub enum ConfigLoadError {
    /// The configuration could not be built from its source.
    Source(ConfigError),
    /// The configuration lacks a setting, or holds it as something else.
    Field(ConfigError),
    /// The configuration holds an integer that the setting cannot take.
    Range(Setting, i64),
}

/// An integer in decimal digits, after a minus sign where it is negative.
pub open spec fn integer_text(number: int) -> Seq<char> {
    if number < 0 {
        "-"@ + decimal_text((-number) as nat)
    } else {
        decimal_text(number as nat)
    }
}

/// The message of a load error.
pub open spec fn load_message(error: ConfigLoadError) -> Seq<char> {
    match error {
        ConfigLoadError::Source(error) => "[config load error] source error: "@
            + config_error_text(error),
        ConfigLoadError::Field(error) => "[config load error] field error: "@ + config_error_text(
            error,
        ),
        ConfigLoadError::Range(setting, value) => "[config load error] range error: "@ + key_of(
            setting,
        ) + " cannot be "@ + integer_text(value as int),
    }
}

impl ConfigLoadError {
    /// The message, after the kind of the error.
    pub fn to_string(&self) -> (text: String)
        ensures
            text@ == load_message(*self),
    {
        match self {
            ConfigLoadError::Source(error) => {
                let mut text = "[config load error] source error: ".to_owned();
                text.append(error_text(error).as_str());
                text
            },
            ConfigLoadError::Field(error) => {
                let mut text = "[config load error] field error: ".to_owned();
                text.append(error_text(error).as_str());
                text
            },
            ConfigLoadError::Range(setting, value) => {
                let mut text = "[config load error] range error: ".to_owned();
                text.append(setting.key());
                text.append(" cannot be ");
                if *value < 0 {
                    text.append("-");
                    append_decimal(&mut text, (-(*value + 1)) as u64 + 1);
                } else {
                    append_decimal(&mut text, *value as u64);
                }
                text
            },
        }
    }
}

/// The settings of the service.
#[derive(Clone, Copy, Debug, PartialEq, Eq, Structural)]
pub struct AppConfig {
    pub port: u16,
    pub interval_ms: u64,
}

/// Whether an integer is a port: one of the numbers from 0 to 65535.
pub open spec fn is_port(port: i64) -> bool {
    0 <= port <= 65535
}

/// Whether an integer is a time to wait: it is not negative.
pub open spec fn is_interval(interval_ms: i64) -> bool {
    0 <= interval_ms
}

/// The settings that two integers make: the port and the interval as they
/// are, where the first is a port and the second a time to wait. The port is
/// looked at first.
pub open spec fn settings_from(port: i64, interval_ms: i64) -> Result<AppConfig, ConfigLoadError> {
    if !is_port(port) {
        Err(ConfigLoadError::Range(Setting::Port, port))
    } else if !is_interval(interval_ms) {
        Err(ConfigLoadError::Range(Setting::IntervalMs, interval_ms))
    } else {
        Ok(AppConfig { port: port as u16, interval_ms: interval_ms as u64 })
    }
}

/// The settings that the outcome of building a configuration gives: the
/// source must have been built, hold an integer under each of the two keys,
/// and the two integers must make settings.
pub open spec fn loaded(source: Result<Config, ConfigError>) -> Result<AppConfig, ConfigLoadError> {
    match source {
        Err(error) => Err(ConfigLoadError::Source(error)),
        Ok(settings) => match config_int(settings, key_of(Setting::Port)) {
            Err(error) => Err(ConfigLoadError::Field(error)),
            Ok(port) => match config_int(settings, key_of(Setting::IntervalMs)) {
                Err(error) => Err(ConfigLoadError::Field(error)),
                Ok(interval_ms) => settings_from(port, interval_ms),
            },
        },
    }
}

/// Makes the settings of two integers. An integer that is no port, or a
/// negative time to wait, fails with the setting and the integer.
pub fn settings_of(port: i64, interval_ms: i64) -> (result: Result<AppConfig, ConfigLoadError>)
    ensures
        result == settings_from(port, interval_ms),
        result matches Ok(config) ==> config.port == port && config.interval_ms == interval_ms,
{
    if port < 0 || port > 65535 {
        return Err(ConfigLoadError::Range(Setting::Port, port));
    }
    if interval_ms < 0 {
        return Err(ConfigLoadError::Range(Setting::IntervalMs, interval_ms));
    }
    Ok(AppConfig { port: port as u16, interval_ms: interval_ms as u64 })
}

/// Reads the settings from the outcome of building a configuration.
pub fn load_config(source: Result<Config, ConfigError>) -> (result: Result<
    AppConfig,
    ConfigLoadError,
>)
    ensures
        result == loaded(source),
{
    let settings = match source {
        Ok(settings) => settings,
        Err(error) => {
            return Err(ConfigLoadError::Source(error));
        },
    };
    let port = match get_int(&settings, Setting::Port.key()) {
        Ok(port) => port,
        Err(error) => {
            return Err(ConfigLoadError::Field(error));
        },
    };
    let interval_ms = match get_int(&settings, Setting::IntervalMs.key()) {
        Ok(interval_ms) => interval_ms,
        Err(error) => {
            return Err(ConfigLoadError::Field(error));
        },
    };
    settings_of(port, interval_ms)
}

} // verus!
