use container_conf::manifest::{manifest, Manifest};

#[test]
fn test_parser_container_image() {
    let input = b"from: ubuntu:latest\0";

    let result = manifest(input);

    assert!(result.is_ok(), "Error: {:?}", result.as_ref().err());
    let (_, manifest) = result.unwrap();
    assert_eq!(manifest, Manifest::Image(b"ubuntu:latest"))
}

#[test]
fn test_parser_container_manifest() {
    let input = b"from: Dockerfile.ubuntu\0";

    let result = manifest(input);

    assert!(result.is_ok(), "Error: {:?}", result.as_ref().err());
    let (_, manifest) = result.unwrap();
    assert_eq!(manifest, Manifest::File(b"Dockerfile.ubuntu"))
}

#[test]
fn test_parser_invalid_container_manifest() {
    let input = b"from: Dockerfile@ubuntu\0";

    let result = manifest(input);

    assert!(result.is_err());
}
