use infused_modbus::connection_string::{
    bad_rate_message, bad_scheme_message, host_of, no_rate_message, parse_connection_string,
    ConnectionTarget,
};

#[test]
fn parses_tcp() {
    assert_eq!(
        parse_connection_string("tcp://127.0.0.1:502").unwrap(),
        ConnectionTarget::Tcp {
            address: "127.0.0.1:502".to_string()
        }
    );
}

#[test]
fn parses_tls_tcp() {
    assert_eq!(
        parse_connection_string("tls+tcp://127.0.0.1:502").unwrap(),
        ConnectionTarget::TlsTcp {
            address: "127.0.0.1:502".to_string()
        }
    );
}

#[test]
fn parses_rtu() {
    assert_eq!(
        parse_connection_string("rtu:///dev/ttyUSB0:9600").unwrap(),
        ConnectionTarget::Rtu {
            path: "/dev/ttyUSB0".to_string(),
            baud_rate: 9600
        }
    );
}

#[test]
fn rejects_rtu_without_baud_rate() {
    assert!(parse_connection_string("rtu:///dev/ttyUSB0").is_err());
}

#[test]
fn rejects_rtu_with_non_numeric_baud_rate() {
    assert!(parse_connection_string("rtu:///dev/ttyUSB0:fast").is_err());
}

#[test]
fn rejects_unknown_scheme() {
    assert!(parse_connection_string("udp://127.0.0.1:502").is_err());
}

#[test]
fn the_errors_quote_what_was_given() {
    assert_eq!(
        parse_connection_string("udp://127.0.0.1:502"),
        Err(
            "connection must start with tcp://, tls+tcp://, or rtu://, got \"udp://127.0.0.1:502\""
                .to_string()
        )
    );
    assert_eq!(
        parse_connection_string("rtu:///dev/tty\"0"),
        Err(
            "rtu:// connection must be rtu://<path>:<baud-rate>, got \"rtu:///dev/tty\\\"0\""
                .to_string()
        )
    );
    assert_eq!(
        parse_connection_string("rtu:///dev/ttyUSB0:fast"),
        Err("invalid baud rate \"fast\": invalid digit found in string".to_string())
    );
    assert_eq!(
        parse_connection_string("rtu:///dev/ttyUSB0:"),
        Err("invalid baud rate \"\": cannot parse integer from empty string".to_string())
    );
    assert_eq!(
        parse_connection_string("rtu:///dev/ttyUSB0:4294967296"),
        Err(
            "invalid baud rate \"4294967296\": number too large to fit in target type".to_string()
        )
    );
}

#[test]
fn a_path_may_hold_colons_and_a_rate_a_plus_sign() {
    assert_eq!(
        parse_connection_string("rtu:///dev/serial:by:id:+115200"),
        Ok(ConnectionTarget::Rtu {
            path: "/dev/serial:by:id".to_string(),
            baud_rate: 115200
        })
    );
}

#[test]
fn the_host_is_what_stands_before_the_last_colon() {
    assert_eq!(host_of("127.0.0.1:502"), "127.0.0.1");
    assert_eq!(host_of("plc.example"), "plc.example");
    assert_eq!(host_of("a:b:502"), "a:b");
}

#[test]
fn the_messages_hold_what_they_are_given() {
    assert_eq!(
        no_rate_message("X"),
        "rtu:// connection must be rtu://<path>:<baud-rate>, got X"
    );
    assert_eq!(bad_rate_message("X", "Y"), "invalid baud rate X: Y");
    assert_eq!(
        bad_scheme_message("X"),
        "connection must start with tcp://, tls+tcp://, or rtu://, got X"
    );
}
