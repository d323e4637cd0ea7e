use container_conf::arguments::{argument, Argument};

#[test]
fn test_parse_invalid() {
    let input = b"invalid: invalid\0";

    let result = argument(input);

    assert!(result.is_err());
}

#[test]
fn test_parse() {
    let input = b"volume: /path/to/directory:/path/to/mount/point\0";
    let result = argument(input);
    assert!(result.is_ok(), "Error: {:?}", result.as_ref().err());
    let (_, argument_found) = result.unwrap();
    assert_eq!(argument_found, Argument::Volume {
        source: b"/path/to/directory",
        mount: b"/path/to/mount/point"
    });

}

#[test]
fn tests_test_parse() {
    let input = b"port: 80:8080\0";
    let result = argument(input);
    assert!(result.is_ok(), "Error: {:?}", result.as_ref().err());
    let (_, argument_found) = result.unwrap();
    assert_eq!(argument_found, Argument::PublishPort {
        outer: 80,
        inner: 8080
    });

    let input = b"expose: 8080\0";
    let result = argument(input);
    assert!(result.is_ok(), "Error: {:?}", result.as_ref().err());
    let (_, argument_found) = result.unwrap();
    assert_eq!(argument_found, Argument::ExposePort {
        port: 8080
    });

    let input = b"volume-from: cache_container\0";
    let result = argument(input);
    assert!(result.is_ok(), "Error: {:?}", result.as_ref().err());
    let (_, argument_found) = result.unwrap();
    assert_eq!(argument_found, Argument::VolumeFrom {
        name: b"cache_container"
    });
}

#[test]
fn test_parse_invalid_mount_path() {
    let input = b"volume: /path/to/directory:/path%to|mount=point\0";

    let result = argument(input);

    assert!(result.is_err());
}

#[test]
fn test_parse_invalid_source_path() {
    let input = b"volume: /path+to@directory:/path/to/mount/point\0";

    let result = argument(input);

    assert!(result.is_err());
}

#[test]
fn test_parse_invalid_path() {
    let input = b"volume: /path+to@directory:!path%to|mount=point\0";

    let result = argument(input);

    assert!(result.is_err());
}

#[test]
fn test_parse_invalid_outer_port() {
    let input = b"port: abc:8080\0";

    let result = argument(input);

    assert!(result.is_err());
}

#[test]
fn test_parse_invalid_inner_port() {
    let input = b"port: 80:abc\0";

    let result = argument(input);

    assert!(result.is_err());
}

#[test]
fn test_parse_invalid_port() {
    let input = b"expose: abcd\0";

    let result = argument(input);

    assert!(result.is_err());
}

#[test]
fn test_parse_invalid_volume_from() {
    let input = b"volume-from: cache@Container\0";

    let result = argument(input);
    assert!(result.is_err());
}
