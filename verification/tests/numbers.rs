use container_conf::arguments::{argument, Argument, PortError};
use container_conf::error::Expected;

#[test]
fn the_largest_port_parses() {
    assert_eq!(Argument::parse_to_u16(b"65535"), Ok(65535));
    let (_, found) = argument(b"expose: 65535\0").unwrap();
    assert_eq!(found, Argument::ExposePort { port: 65535 });
    let (_, found) = argument(b"port: 65535:65535\0").unwrap();
    assert_eq!(found, Argument::PublishPort { outer: 65535, inner: 65535 });
}

#[test]
fn one_more_than_the_largest_port_fails() {
    assert_eq!(Argument::parse_to_u16(b"65536"), Err(PortError::Overflow));
    let error = argument(b"expose: 65536\0").unwrap_err();
    assert_eq!(error.expected, Expected::Port);
    assert_eq!(error.remaining, b"65536\0");
    let error = argument(b"port: 65536:80\0").unwrap_err();
    assert_eq!(error.expected, Expected::Port);
    assert_eq!(error.remaining, b"65536:80\0");
    let error = argument(b"port: 80:65536\0").unwrap_err();
    assert_eq!(error.expected, Expected::Port);
    assert_eq!(error.remaining, b"65536\0");
}

#[test]
fn a_port_that_is_no_number_fails() {
    assert_eq!(Argument::parse_to_u16(b"abc"), Err(PortError::InvalidDigit));
    assert_eq!(Argument::parse_to_u16(b"8o"), Err(PortError::InvalidDigit));
    assert_eq!(Argument::parse_to_u16(b"+80"), Err(PortError::InvalidDigit));
    assert_eq!(Argument::parse_to_u16(b"-1"), Err(PortError::InvalidDigit));
    assert_eq!(Argument::parse_to_u16(b" 80"), Err(PortError::InvalidDigit));
    assert_eq!(Argument::parse_to_u16(b"99999x"), Err(PortError::InvalidDigit));
    assert_eq!(Argument::parse_to_u16(b""), Err(PortError::Empty));
    let error = argument(b"expose: abcd\0").unwrap_err();
    assert_eq!(error.expected, Expected::Digits);
    let error = argument(b"port: +80:8080\0").unwrap_err();
    assert_eq!(error.expected, Expected::Port);
    let error = argument(b"port: :8080\0").unwrap_err();
    assert_eq!(error.expected, Expected::Port);
    assert_eq!(error.remaining, b":8080\0");
}

#[test]
fn decimal_notation() {
    assert_eq!(Argument::parse_to_u16(b"0"), Ok(0));
    assert_eq!(Argument::parse_to_u16(b"7"), Ok(7));
    assert_eq!(Argument::parse_to_u16(b"80"), Ok(80));
    assert_eq!(Argument::parse_to_u16(b"8080"), Ok(8080));
    assert_eq!(Argument::parse_to_u16(b"00443"), Ok(443));
    assert_eq!(Argument::parse_to_u16(b"0000065535"), Ok(65535));
    assert_eq!(Argument::parse_to_u16(b"65540"), Err(PortError::Overflow));
    assert_eq!(Argument::parse_to_u16(b"100000"), Err(PortError::Overflow));
    assert_eq!(Argument::parse_to_u16(b"99999999999999999999999999"), Err(PortError::Overflow));
}
