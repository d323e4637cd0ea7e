use container_conf::name::container_name;

#[test]
fn test_parser_container_name() {
    let input = b"ubuntu:";

    let result = container_name(input);

    assert!(result.is_ok(), "Error: {:?}", result.as_ref().err());
    let (_, container_name) = result.unwrap();
    assert_eq!(container_name, b"ubuntu");
}

#[test]
fn test_parser_container_custom_name() {
    let input = b"ubuntu-bionic:";

    let result = container_name(input);

    assert!(result.is_ok(), "Error: {:?}", result.as_ref().err());
    let (_, container_name) = result.unwrap();
    assert_eq!(container_name, b"ubuntu-bionic");
}
