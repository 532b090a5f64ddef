use decky_power_host::config::{ConfigError, HostConfig};
use decky_power_host::DEFAULT_PORT;

#[test]
fn missing_port_uses_default() {
    assert_eq!(HostConfig::from_port_value(None).unwrap().port, DEFAULT_PORT);
    assert_eq!(HostConfig::default_config().port, DEFAULT_PORT);
}

#[test]
fn custom_and_boundary_ports_work() {
    assert_eq!(HostConfig::from_port_value(Some(48100)).unwrap().port, 48_100);
    assert_eq!(HostConfig::from_port_value(Some(1)).unwrap().port, 1);
    assert_eq!(HostConfig::from_port_value(Some(65535)).unwrap().port, 65_535);
}

#[test]
fn invalid_ports_fail() {
    assert!(matches!(
        HostConfig::from_port_value(Some(0)),
        Err(ConfigError::InvalidPort(0))
    ));
    assert!(matches!(
        HostConfig::from_port_value(Some(65536)),
        Err(ConfigError::InvalidPort(65_536))
    ));
}

#[test]
fn negative_and_huge_ports_fail_with_their_value() {
    assert!(matches!(
        HostConfig::from_port_value(Some(-1)),
        Err(ConfigError::InvalidPort(-1))
    ));
    assert!(matches!(
        HostConfig::from_port_value(Some(i64::MAX)),
        Err(ConfigError::InvalidPort(i64::MAX))
    ));
}

#[test]
fn invalid_port_message_names_the_value() {
    assert_eq!(
        ConfigError::InvalidPort(65536).message(),
        "port must be in 1..=65535, got 65536"
    );
    assert_eq!(
        ConfigError::InvalidPort(-7).message(),
        "port must be in 1..=65535, got -7"
    );
    assert_eq!(
        ConfigError::InvalidPort(i64::MIN).message(),
        format!("port must be in 1..=65535, got {}", i64::MIN)
    );
}
