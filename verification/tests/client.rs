use decky_power_host::client::{pairing_code_argument, parse_arguments, usage, Options};

fn parse(values: &[&str]) -> Result<Options, String> {
    let arguments: Vec<String> = values.iter().map(|value| (*value).to_owned()).collect();
    parse_arguments(&arguments)
}

#[test]
fn port_default_custom_and_boundaries_are_validated() {
    assert_eq!(parse(&["status", "--host", "pc"]).unwrap().port, 47_991);
    assert_eq!(
        parse(&["status", "--host", "pc", "--port", "48100"])
            .unwrap()
            .port,
        48_100
    );
    assert_eq!(
        parse(&["status", "--host", "pc", "--port", "1"])
            .unwrap()
            .port,
        1
    );
    assert_eq!(
        parse(&["status", "--host", "pc", "--port", "65535"])
            .unwrap()
            .port,
        65_535
    );
    for value in ["0", "65536", "not-a-port"] {
        assert!(parse(&["status", "--host", "pc", "--port", value]).is_err());
    }
}

#[test]
fn misleading_mock_client_flag_is_rejected() {
    assert!(parse(&["shutdown", "--host", "pc", "--mock"]).is_err());
}

#[test]
fn missing_value_names_the_option() {
    let error = parse(&["shutdown", "--host", "pc", "--mock"]).err().unwrap();
    assert_eq!(error, format!("missing value for --mock\n{}", usage()));
}

#[test]
fn unknown_options_are_listed() {
    let error = parse(&["status", "--host", "pc", "--mock", "yes"]).err().unwrap();
    assert_eq!(error, format!("unknown arguments: [\"--mock\"]\n{}", usage()));
}

#[test]
fn host_is_required() {
    let error = parse(&["status", "--port", "1"]).err().unwrap();
    assert_eq!(error, format!("--host is required\n{}", usage()));
    assert_eq!(parse(&[]).err().unwrap(), usage());
}

#[test]
fn port_errors_name_the_range() {
    assert_eq!(
        parse(&["status", "--host", "pc", "--port", "0"]).err().unwrap(),
        "--port must be in 1..=65535"
    );
}

#[test]
fn defaults_and_last_value_wins() {
    let options = parse(&[
        "pair", "--host", "a", "--code", "123456", "--host", "b", "--port", "+80",
    ])
    .unwrap();
    assert_eq!(options.command, "pair");
    assert_eq!(options.host, "b");
    assert_eq!(options.port, 80);
    assert_eq!(options.code.as_deref(), Some("123456"));
    assert_eq!(options.credential_file, ".decky-power-test.json");
    let options = parse(&["status", "--host", "pc", "--credential-file", "/tmp/c.json"]).unwrap();
    assert_eq!(options.credential_file, "/tmp/c.json");
    assert_eq!(options.code, None);
}

#[test]
fn usage_lists_the_commands() {
    assert_eq!(
        usage(),
        "usage: decky-power-test <pair|status|shutdown> --host HOST [--port PORT] [--code 483921] [--credential-file PATH]"
    );
}

#[test]
fn pairing_code_argument_drops_whitespace_and_needs_six_digits() {
    assert_eq!(pairing_code_argument(Some(" 123 456 ")).unwrap(), "123456");
    assert_eq!(pairing_code_argument(Some("12345\t6")).unwrap(), "123456");
    assert_eq!(
        pairing_code_argument(Some("12345")).err().unwrap(),
        "pairing code must contain six digits"
    );
    assert_eq!(
        pairing_code_argument(Some("12345a")).err().unwrap(),
        "pairing code must contain six digits"
    );
    assert_eq!(pairing_code_argument(None).err().unwrap(), "pair requires --code");
}
