use decky_power_host::config::HostConfig;
use decky_power_host::startup::{
    config_override, is_service_mode, listen_port, parse_startup, StartupError,
};

fn arguments(values: &[&str]) -> Vec<String> {
    values.iter().map(|value| (*value).to_owned()).collect()
}

#[test]
fn development_mode_needs_both_flags() {
    assert!(matches!(
        parse_startup(&arguments(&["host"])),
        Err(StartupError::NotDevelopment)
    ));
    assert!(matches!(
        parse_startup(&arguments(&["host", "--dev"])),
        Err(StartupError::MockShutdownRequired)
    ));
    assert!(matches!(
        parse_startup(&arguments(&["host", "--mock-shutdown"])),
        Err(StartupError::NotDevelopment)
    ));
    let options = parse_startup(&arguments(&["host", "--mock-shutdown", "--dev"])).unwrap();
    assert!(!options.ephemeral_port);
    assert_eq!(options.config, None);
    assert_eq!(options.pairing_code_value, None);
}

#[test]
fn development_options_are_read() {
    let options = parse_startup(&arguments(&[
        "host",
        "--dev",
        "--mock-shutdown",
        "--ephemeral-port",
        "--config",
        "C:/host.toml",
        "--pairing-code-value",
        "123456",
    ]))
    .unwrap();
    assert!(options.ephemeral_port);
    assert_eq!(options.config.as_deref(), Some("C:/host.toml"));
    assert_eq!(options.pairing_code_value.as_deref(), Some("123456"));
}

#[test]
fn config_override_takes_the_first_value() {
    assert_eq!(
        config_override(&arguments(&["host", "--config", "a", "--config", "b"])).as_deref(),
        Some("a")
    );
    assert_eq!(config_override(&arguments(&["host", "--config"])), None);
    assert_eq!(
        config_override(&arguments(&["--config", "--config", "x"])).as_deref(),
        Some("--config")
    );
}

#[test]
fn service_mode_and_listen_port() {
    assert!(is_service_mode(&arguments(&["host", "--service"])));
    assert!(!is_service_mode(&arguments(&["host", "--dev"])));
    let config = HostConfig::from_port_value(Some(48100)).unwrap();
    assert_eq!(listen_port(config, false), 48100);
    assert_eq!(listen_port(config, true), 0);
}

#[test]
fn startup_errors_explain_themselves() {
    assert_eq!(
        StartupError::NotDevelopment.message(),
        "unknown arguments; use --dev --mock-shutdown for development"
    );
    assert_eq!(
        StartupError::MockShutdownRequired.message(),
        "development mode requires --mock-shutdown"
    );
}
