use container_conf::arguments::{
    argument, expose, port, separator, volume, volume_from, Argument,
};
use container_conf::container::{
    argument_line, arguments, block_end, container, container_head, Container,
};
use container_conf::containers::Containers;
use container_conf::document::{
    blank_lines, containers, document, document_end, shell_block, Parser,
};
use container_conf::error::{Expected, ParseError};
use container_conf::manifest::{manifest, Manifest};
use container_conf::name::container_name;
use container_conf::path::PathLike;
use container_conf::shell::{shell, Shell};

#[test]
fn one_container_with_an_image() {
    let document = Parser::parse(b"@ubuntu:\n\tfrom: ubuntu:latest\n").unwrap();
    assert_eq!(document.containers().len(), 1);
    let ubuntu = document.containers().get(b"ubuntu").unwrap();
    assert_eq!(ubuntu.name(), b"ubuntu");
    assert_eq!(ubuntu.manifest(), Manifest::Image(b"ubuntu:latest"));
    assert!(ubuntu.arguments().is_empty());
    assert_eq!(document.shell().path(), b"/bin/bash");
    assert_eq!(*document.shell(), "/bin/bash");
}

#[test]
fn an_unknown_directive_fails_the_document() {
    assert!(Parser::parse(b"@ubuntu:\n\tfrom: ubuntu:latest\n\tinvalid: invalid\n").is_err());
    assert!(
        Parser::parse(b"@ubuntu:\n\tfrom: ubuntu:latest\n\tinvalid: invalid\n\tport: 80:8080\n")
            .is_err()
    );
    assert!(
        Parser::parse(b"@ubuntu:\n\tfrom: ubuntu:latest\n\tport: 80:8080\n\tinvalid: invalid\n")
            .is_err()
    );
    let input = b"@a:\n\tfrom: x\n\n@ubuntu:\n\tfrom: ubuntu:latest\n\tinvalid: invalid\n";
    let error = Parser::parse(input).unwrap_err();
    assert_eq!(error.expected, Expected::Keyword);
    assert_eq!(error.remaining, b"invalid: invalid\n");
    assert_eq!(error.offset(input), Some(input.len() - 17));
}

#[test]
fn a_repeated_argument_fails_the_document() {
    let input = b"@ubuntu:\n\tfrom: ubuntu:latest\n\tport: 80:8080\n\tport: 80:8080\n";
    let error = Parser::parse(input).unwrap_err();
    assert_eq!(error.expected, Expected::DistinctArguments);
    assert_eq!(error.remaining, b"\tport: 80:8080\n\tport: 80:8080\n");
    assert!(container(input).is_err());
}

#[test]
fn arguments_that_differ_are_kept_in_their_order() {
    let input = b"@web:\n\tfrom: nginx\n\tport: 80:8080\n\tport: 80:8081\n\tport: 81:8080\n\texpose: 80\n\tvolume: /a:/b\n\tvolume: /a:/c\n\tvolume-from: a\n\tvolume-from: b\n";
    let (rest, web) = container(input).unwrap();
    assert_eq!(rest, b"");
    assert_eq!(
        *web.arguments(),
        vec![
            Argument::PublishPort { outer: 80, inner: 8080 },
            Argument::PublishPort { outer: 80, inner: 8081 },
            Argument::PublishPort { outer: 81, inner: 8080 },
            Argument::ExposePort { port: 80 },
            Argument::Volume { source: b"/a", mount: b"/b" },
            Argument::Volume { source: b"/a", mount: b"/c" },
            Argument::VolumeFrom { name: b"a" },
            Argument::VolumeFrom { name: b"b" },
        ]
    );
}

#[test]
fn equal_arguments_far_apart_are_found() {
    let input = b"@web:\n\tfrom: nginx\n\tvolume: /a:/b\n\tport: 80:8080\n\texpose: 80\n\tvolume: /a:/b\n";
    assert_eq!(container(input).unwrap_err().expected, Expected::DistinctArguments);
    let input = b"@web:\n\tfrom: nginx\n\tvolume-from: a\n\texpose: 80\n\tvolume-from: a\n";
    assert_eq!(container(input).unwrap_err().expected, Expected::DistinctArguments);
    let input = b"@web:\n\tfrom: nginx\n\texpose: 80\n\texpose: 080\n";
    assert_eq!(container(input).unwrap_err().expected, Expected::DistinctArguments);
}

#[test]
fn verify_arguments_tells_whether_all_differ() {
    assert!(Container::verify_arguments(&[]));
    assert!(Container::verify_arguments(&[Argument::ExposePort { port: 1 }]));
    assert!(Container::verify_arguments(&[
        Argument::ExposePort { port: 1 },
        Argument::ExposePort { port: 2 },
        Argument::PublishPort { outer: 1, inner: 1 },
        Argument::VolumeFrom { name: b"a" },
        Argument::Volume { source: b"a", mount: b"a" },
    ]));
    assert!(!Container::verify_arguments(&[
        Argument::ExposePort { port: 1 },
        Argument::ExposePort { port: 2 },
        Argument::ExposePort { port: 1 },
    ]));
    assert!(!Container::verify_arguments(&[
        Argument::Volume { source: b"/a", mount: b"/b" },
        Argument::Volume { source: b"/a", mount: b"/b" },
    ]));
}

#[test]
fn the_later_of_two_containers_with_one_name_stays() {
    let input = b"@db:\n\tfrom: postgres\n\n@web:\n\tfrom: nginx\n\n@db:\n\tfrom: Dockerfile.db\n\texpose: 5432\n";
    let document = Parser::parse(input).unwrap();
    assert_eq!(document.containers().len(), 2);
    assert!(!document.containers().is_empty());
    let db = document.containers().get(b"db").unwrap();
    assert_eq!(db.manifest(), Manifest::File(b"Dockerfile.db"));
    assert_eq!(*db.arguments(), vec![Argument::ExposePort { port: 5432 }]);
    let web = document.containers().get(b"web").unwrap();
    assert_eq!(web.manifest(), Manifest::Image(b"nginx"));
    assert!(document.containers().get(b"d").is_none());
    assert!(!document.containers().contains_key(b"dbx"));
    let names: Vec<&[u8]> = document.containers().as_slice().iter().map(|c| c.name()).collect();
    assert_eq!(names.len(), 2);
    assert!(names.contains(&&b"db"[..]));
    assert!(names.contains(&&b"web"[..]));
}

#[test]
fn the_shell_block_sets_the_path() {
    let document = Parser::parse(b"@shell:\n\tpath: /bin/zsh\n").unwrap();
    assert_eq!(document.shell().path(), b"/bin/zsh");
    assert!(document.containers().is_empty());
    let document = Parser::parse(b"@shell:\n    path: /usr/bin/fish\0").unwrap();
    assert_eq!(*document.shell(), "/usr/bin/fish");
    let document = Parser::parse(b"@shell:\r\n\tpath: sh\r\n\r\n\r\n@a:\r\n\tfrom: b\r\n").unwrap();
    assert_eq!(*document.shell(), "sh");
    assert_eq!(document.containers().len(), 1);
}

#[test]
fn without_a_shell_block_the_shell_is_the_default() {
    let document = Parser::parse(b"").unwrap();
    assert_eq!(document.shell().path(), b"/bin/bash");
    assert_eq!(Shell::default().path(), b"/bin/bash");
    assert!(Shell::default() == "/bin/bash");
    assert!(!(Shell::default() == "/bin/zsh"));
    let (rest, found) = shell_block(b"@a:\n").unwrap();
    assert_eq!(rest, b"@a:\n");
    assert_eq!(found.path(), b"/bin/bash");
}

#[test]
fn a_broken_shell_block_is_a_failure() {
    let error = Parser::parse(b"@shell:\n\tfrom: ubuntu\n").unwrap_err();
    assert_eq!(error.expected, Expected::PathKey);
    assert_eq!(error.remaining, b"from: ubuntu\n");
    let error = Parser::parse(b"@shell:\n\tpath: /bin/z sh\n").unwrap_err();
    assert_eq!(error.expected, Expected::LineEnd);
    assert_eq!(error.remaining, b" sh\n");
    let error = Parser::parse(b"@shell:\n\tpath: /bin/zsh").unwrap_err();
    assert_eq!(error.expected, Expected::LineEnd);
    assert_eq!(error.remaining, b"");
    let error = Parser::parse(b"@shell: \n\tpath: /bin/zsh\n").unwrap_err();
    assert_eq!(error.expected, Expected::LineEnd);
    assert_eq!(error.remaining, b" \n\tpath: /bin/zsh\n");
    let error = Parser::parse(b"@shell:\npath: /bin/zsh\n").unwrap_err();
    assert_eq!(error.expected, Expected::Indent);
    let error = Parser::parse(b"@shell:\n\tpath:/bin/zsh\n").unwrap_err();
    assert_eq!(error.expected, Expected::Space);
    let error = Parser::parse(b"@shell:\n\tpath: \n").unwrap_err();
    assert_eq!(error.expected, Expected::Path);
}

#[test]
fn a_shell_block_after_a_container_is_a_container() {
    assert!(Parser::parse(b"@a:\n\tfrom: x\n\n@shell:\n\tpath: /bin/zsh\n").is_err());
    let document = Parser::parse(b"@a:\n\tfrom: x\n\n@shell:\n\tfrom: y\n").unwrap();
    assert_eq!(document.shell().path(), b"/bin/bash");
    assert!(document.containers().contains_key(b"shell"));
    let error = shell(b"@a:\n").unwrap_err();
    assert_eq!(error.expected, Expected::ShellHeader);
    assert_eq!(error.remaining, b"@a:\n");
}

#[test]
fn indentation_may_change_from_line_to_line() {
    let input = b"@a:\n    from: x\n\texpose: 1\n    expose: 2\n";
    let (_, found) = container(input).unwrap();
    assert_eq!(found.arguments().len(), 2);
    assert!(container(b"@a:\n  from: x\n").is_err());
    assert!(container(b"@a:\n\t\tfrom: x\n").is_err());
    let error = container(b"@a:\n\tfrom: x\n   expose: 1\n").unwrap_err();
    assert_eq!(error.expected, Expected::Indent);
}

#[test]
fn a_value_may_end_with_nul() {
    let (rest, found) = manifest(b"from: ubuntu\0").unwrap();
    assert_eq!(rest, b"");
    assert_eq!(found, Manifest::Image(b"ubuntu"));
    let (rest, found) = container(b"@a:\n\tfrom: x\0\texpose: 1\0").unwrap();
    assert_eq!(rest, b"");
    assert_eq!(*found.arguments(), vec![Argument::ExposePort { port: 1 }]);
    let (_, found) = container(b"@a:\0\tfrom: x\n").unwrap();
    assert_eq!(found.name(), b"a");
    assert_eq!(Parser::parse(b"@shell:\0\tpath: sh\0").unwrap().shell().path(), b"sh");
    assert!(container(b"@a:\n\tfrom: x\n\0").is_err());
    assert!(container(b"@a:\n\tfrom: x\0\0").is_err());
}

#[test]
fn a_container_ends_with_a_blank_line_or_the_input() {
    let (rest, _) = container(b"@a:\n\tfrom: x\n").unwrap();
    assert_eq!(rest, b"");
    let (rest, _) = container(b"@a:\n\tfrom: x\n\n@b:\n").unwrap();
    assert_eq!(rest, b"@b:\n");
    let (rest, _) = container(b"@a:\n\tfrom: x\n\r\n\n").unwrap();
    assert_eq!(rest, b"\n");
    let error = container(b"@a:\n\tfrom: x\n@b:\n\tfrom: y\n").unwrap_err();
    assert_eq!(error.expected, Expected::Indent);
    assert_eq!(error.remaining, b"@b:\n\tfrom: y\n");
    assert_eq!(block_end(b""), Some(&b""[..]));
    assert_eq!(block_end(b"\nx"), Some(&b"x"[..]));
    assert_eq!(block_end(b"x"), None);
    assert_eq!(block_end(b"\0"), None);
}

#[test]
fn a_second_manifest_line_fails_the_container() {
    let error = container(b"@a:\n\tfrom: x\n\tfrom: y\n").unwrap_err();
    assert_eq!(error.expected, Expected::Keyword);
    assert_eq!(error.remaining, b"from: y\n");
    assert!(container(b"@a:\n\texpose: 1\n").is_err());
    assert_eq!(container(b"@a:\n\texpose: 1\n").unwrap_err().expected, Expected::FromKey);
}

#[test]
fn container_headers() {
    let (rest, (name, found)) = container_head(b"@web-1_a:\n\tfrom: Dockerfile\n\texpose: 1\n").unwrap();
    assert_eq!(name, b"web-1_a");
    assert_eq!(found, Manifest::File(b"Dockerfile"));
    assert_eq!(rest, b"\texpose: 1\n");
    assert_eq!(container_head(b"web:\n\tfrom: x\n").unwrap_err().expected, Expected::At);
    assert_eq!(container_head(b"").unwrap_err().expected, Expected::At);
    assert_eq!(container_head(b"@we b:\n\tfrom: x\n").unwrap_err().expected, Expected::Name);
    assert_eq!(container_head(b"@we/b:\n\tfrom: x\n").unwrap_err().expected, Expected::Name);
    assert_eq!(container_head(b"@web\n\tfrom x\n").unwrap_err().expected, Expected::Colon);
    assert_eq!(container_head(b"@web: \n\tfrom: x\n").unwrap_err().expected, Expected::LineEnd);
    let (_, (name, _)) = container_head(b"@:\n\tfrom: x\n").unwrap();
    assert_eq!(name, b"");
}

#[test]
fn container_names() {
    let (rest, name) = container_name(b"ubuntu:\n").unwrap();
    assert_eq!(name, b"ubuntu");
    assert_eq!(rest, b"\n");
    let error = container_name(b"ubu@ntu:").unwrap_err();
    assert_eq!(error.expected, Expected::Name);
    assert_eq!(error.remaining, b"ubu@ntu:");
    assert!(container_name(b"\xe9:").is_err());
    assert!(container_name(b"ubuntu").is_err());
}

#[test]
fn manifest_lines() {
    assert_eq!(manifest(b"from: Dockerfile\n").unwrap().1, Manifest::File(b"Dockerfile"));
    assert_eq!(manifest(b"from: Dockerfile.web\n").unwrap().1, Manifest::File(b"Dockerfile.web"));
    assert_eq!(manifest(b"from: Dockerfiles/web\n").unwrap().1, Manifest::File(b"Dockerfiles/web"));
    assert_eq!(manifest(b"from: dockerfile\n").unwrap().1, Manifest::Image(b"dockerfile"));
    assert_eq!(manifest(b"from: Dockerfil\n").unwrap().1, Manifest::Image(b"Dockerfil"));
    assert_eq!(manifest(b"from: a/Dockerfile\n").unwrap().1, Manifest::Image(b"a/Dockerfile"));
    assert_eq!(manifest(b"from: registry.io/a_b:1.2\r\n").unwrap().1, Manifest::Image(b"registry.io/a_b:1.2"));
    assert_eq!(Manifest::from_text(b"Dockerfile"), Manifest::File(b"Dockerfile"));
    assert_eq!(Manifest::from_text(b"ubuntu"), Manifest::Image(b"ubuntu"));
    assert_eq!(Manifest::from_text(b""), Manifest::Image(b""));
    assert_ne!(Manifest::File(b"a"), Manifest::Image(b"a"));
    assert_ne!(Manifest::File(b"a"), Manifest::File(b"b"));
    assert_eq!(manifest(b"From: x\n").unwrap_err().expected, Expected::FromKey);
    assert_eq!(manifest(b"from:x\n").unwrap_err().expected, Expected::Space);
    assert_eq!(manifest(b"from: \n").unwrap_err().expected, Expected::ManifestText);
    assert_eq!(manifest(b"from: -x\n").unwrap_err().expected, Expected::ManifestText);
    assert_eq!(manifest(b"from: x-y\n").unwrap_err().expected, Expected::LineEnd);
    assert_eq!(manifest(b"from: x").unwrap_err().expected, Expected::LineEnd);
    let (rest, text) = Manifest::parse_manifest(b"ubuntu:latest@sha").unwrap();
    assert_eq!(text, b"ubuntu:latest");
    assert_eq!(rest, b"@sha");
    assert!(Manifest::parse_manifest(b"").is_err());
}

#[test]
fn volume_lines() {
    let (rest, found) = volume(b": /a-b/c_d:/e\nnext").unwrap();
    assert_eq!(found, Argument::Volume { source: b"/a-b/c_d", mount: b"/e" });
    assert_eq!(rest, b"next");
    let error = volume(b": :/e\n").unwrap_err();
    assert_eq!(error.expected, Expected::Path);
    assert_eq!(error.remaining, b":/e\n");
    let error = volume(b": /a:\n").unwrap_err();
    assert_eq!(error.expected, Expected::Path);
    assert_eq!(error.remaining, b"\n");
    let error = volume(b": /a b:/e\n").unwrap_err();
    assert_eq!(error.expected, Expected::Path);
    assert_eq!(error.remaining, b"/a b:/e\n");
    assert_eq!(volume(b": /a\n").unwrap_err().expected, Expected::Colon);
    assert_eq!(volume(b": /a:/e:/f\n").unwrap_err().expected, Expected::LineEnd);
    assert_eq!(volume(b":/a:/e\n").unwrap_err().expected, Expected::Space);
    assert_eq!(volume(b" /a:/e\n").unwrap_err().expected, Expected::Colon);
    assert!(Argument::verify_path(b"/usr/lib-1_a"));
    assert!(Argument::verify_path(b""));
    assert!(!Argument::verify_path(b"/usr:lib"));
    let (rest, path) = Argument::parse_path(b"/usr/lib:rest").unwrap();
    assert_eq!(path, b"/usr/lib");
    assert_eq!(rest, b":rest");
    let (rest, path) = Shell::parse_path(b"/bin/sh").unwrap();
    assert_eq!(path, b"/bin/sh");
    assert_eq!(rest, b"");
    assert_eq!(Shell::parse_path(b":").unwrap_err().expected, Expected::Path);
}

#[test]
fn port_lines() {
    let (rest, found) = port(b": 80:8080\n").unwrap();
    assert_eq!(found, Argument::PublishPort { outer: 80, inner: 8080 });
    assert_eq!(rest, b"");
    assert_eq!(port(b": 80\n").unwrap_err().expected, Expected::Colon);
    assert_eq!(port(b": 80:\n").unwrap_err().expected, Expected::Digits);
    assert_eq!(port(b": 80:80 \n").unwrap_err().expected, Expected::LineEnd);
    assert_eq!(port(b": 80:65536x\n").unwrap_err().expected, Expected::LineEnd);
    assert_eq!(port(b": 8 0:80\n").unwrap_err().expected, Expected::Port);
    let (_, found) = expose(b": 0\n").unwrap();
    assert_eq!(found, Argument::ExposePort { port: 0 });
    assert_eq!(expose(b": \n").unwrap_err().expected, Expected::Digits);
    assert_eq!(expose(b": 1").unwrap_err().expected, Expected::LineEnd);
    let (rest, _) = separator(b": x").unwrap();
    assert_eq!(rest, b"x");
}

#[test]
fn volume_from_lines() {
    let (rest, found) = volume_from(b": cache-1_a\n").unwrap();
    assert_eq!(found, Argument::VolumeFrom { name: b"cache-1_a" });
    assert_eq!(rest, b"");
    assert_eq!(volume_from(b": \n").unwrap_err().expected, Expected::Name);
    assert_eq!(volume_from(b": a/b\n").unwrap_err().expected, Expected::LineEnd);
    assert_eq!(volume_from(b": \xe9\n").unwrap_err().expected, Expected::Name);
    let (rest, name) = Argument::parse_volume_name(b"cache@x").unwrap();
    assert_eq!(name, b"cache");
    assert_eq!(rest, b"@x");
}

#[test]
fn the_keyword_selects_the_directive() {
    assert_eq!(argument(b"volume : /a:/b\n").unwrap_err().expected, Expected::Keyword);
    assert_eq!(argument(b"Volume: /a:/b\n").unwrap_err().expected, Expected::Keyword);
    assert_eq!(argument(b"volumes: /a:/b\n").unwrap_err().expected, Expected::Keyword);
    assert_eq!(argument(b": /a:/b\n").unwrap_err().expected, Expected::Keyword);
    assert_eq!(argument(b"from: x\n").unwrap_err().expected, Expected::Keyword);
    assert_eq!(argument(b"expose 1\n").unwrap_err().expected, Expected::Colon);
    assert_eq!(argument(b"volume-from: /a:/b\n").unwrap_err().expected, Expected::Name);
    assert_eq!(argument(b"volume: cache\n").unwrap_err().expected, Expected::Colon);
    let (rest, found) = argument_line(b"\texpose: 1\n\texpose: 2\n").unwrap();
    assert_eq!(found, Argument::ExposePort { port: 1 });
    assert_eq!(rest, b"\texpose: 2\n");
    assert_eq!(argument_line(b"expose: 1\n").unwrap_err().expected, Expected::Indent);
}

#[test]
fn argument_lines_are_read_until_one_fails() {
    let (found, rest, stopped) = arguments(b"\texpose: 1\n    expose: 2\n\n@b:\n");
    assert_eq!(found, vec![Argument::ExposePort { port: 1 }, Argument::ExposePort { port: 2 }]);
    assert_eq!(rest, b"\n@b:\n");
    assert_eq!(stopped.expected, Expected::Indent);
    assert_eq!(stopped.remaining, b"\n@b:\n");
    let (found, rest, stopped) = arguments(b"\texpose: 1\n\texpose: x\n");
    assert_eq!(found, vec![Argument::ExposePort { port: 1 }]);
    assert_eq!(rest, b"\texpose: x\n");
    assert_eq!(stopped.expected, Expected::Digits);
    assert_eq!(stopped.remaining, b"x\n");
    let (found, rest, _) = arguments(b"");
    assert!(found.is_empty());
    assert_eq!(rest, b"");
}

#[test]
fn blank_lines_between_blocks() {
    assert_eq!(blank_lines(b"\n\r\n\n@a:"), b"@a:");
    assert_eq!(blank_lines(b"@a:"), b"@a:");
    assert_eq!(blank_lines(b"\n \n"), b" \n");
    assert_eq!(blank_lines(b""), b"");
    let (found, rest, stopped) = containers(b"@a:\n\tfrom: x\n\n\n@b:\n\tfrom: y\n\n@c\n");
    assert_eq!(found.len(), 2);
    assert_eq!(rest, b"@c\n");
    assert_eq!(stopped.expected, Expected::Colon);
    assert_eq!(stopped.remaining, b"c\n");
}

#[test]
fn what_follows_the_document_is_returned() {
    let (rest, found) = document(b"@a:\n\tfrom: x\n").unwrap();
    assert_eq!(rest, b"");
    assert_eq!(found.containers().len(), 1);
    let (rest, found) = document(b"\n@a:\n\tfrom: x\n").unwrap();
    assert_eq!(rest, b"@a:\n\tfrom: x\n");
    assert!(found.containers().is_empty());
    assert!(Parser::parse(b"\n@a:\n\tfrom: x\n").unwrap().containers().is_empty());
    let (rest, found) = document(b"@a:\n\tfrom: x\n\n\0@b:\n").unwrap();
    assert_eq!(rest, b"@b:\n");
    assert_eq!(found.containers().len(), 1);
    assert_eq!(document_end(b""), Some(&b""[..]));
    assert_eq!(document_end(b"\r\nx"), Some(&b"x"[..]));
    assert_eq!(document_end(b"\0x"), Some(&b"x"[..]));
    assert_eq!(document_end(b"x"), None);
    let error = document(b" @a:\n\tfrom: x\n").unwrap_err();
    assert_eq!(error.expected, Expected::At);
    assert_eq!(error.remaining, b" @a:\n\tfrom: x\n");
}

#[test]
fn parsing_the_same_bytes_twice_gives_the_same_document() {
    let input = b"@shell:\n\tpath: /bin/zsh\n\n@a:\n\tfrom: x\n\tport: 1:2\n\n@b:\n\tfrom: Dockerfile\n".to_vec();
    let copy = input.clone();
    let first = Parser::parse(&input).unwrap();
    let second = Parser::parse(&copy).unwrap();
    assert_eq!(first.shell().path(), second.shell().path());
    assert_eq!(first.containers().len(), second.containers().len());
    for name in [&b"a"[..], &b"b"[..]] {
        let one = first.containers().get(name).unwrap();
        let other = second.containers().get(name).unwrap();
        assert_eq!(one.name(), other.name());
        assert_eq!(one.manifest(), other.manifest());
        assert_eq!(one.arguments(), other.arguments());
    }
    assert_eq!(format!("{:?}", first), format!("{:?}", second));
    let bad = b"@a:\n\tfrom: x\n\tport: 1:2\n\tbad\n".to_vec();
    let first = Parser::parse(&bad).unwrap_err();
    let again = bad.clone();
    let second = Parser::parse(&again).unwrap_err();
    assert_eq!(first.expected, second.expected);
    assert_eq!(first.remaining, second.remaining);
}

#[test]
fn the_place_of_a_failure_is_an_offset_into_the_input() {
    let input = b"@a:\n\tfrom: x\n\tport: 1:99999\n";
    let error = Parser::parse(input).unwrap_err();
    assert_eq!(error.expected, Expected::Port);
    assert_eq!(error.offset(input), Some(22));
    assert_eq!(&input[22..], error.remaining);
    assert_eq!(error.offset(b"elsewhere"), None);
    assert_eq!(error.offset(b"9\n"), None);
    assert_eq!(error.offset(b"xx99999\n"), Some(2));
    assert_eq!(error.offset(error.remaining), Some(0));
}

#[test]
fn containers_keep_one_container_for_each_name() {
    let mut all = Containers::new();
    assert!(all.is_empty());
    assert_eq!(all.len(), 0);
    assert!(all.get(b"db").is_none());
    let (_, first) = container(b"@db:\n\tfrom: postgres\n").unwrap();
    let (_, second) = container(b"@web:\n\tfrom: nginx\n").unwrap();
    let (_, third) = container(b"@db:\n\tfrom: mysql\n\texpose: 3306\n").unwrap();
    all.insert(first);
    assert_eq!(all.len(), 1);
    assert_eq!(all.get(b"db").unwrap().manifest(), Manifest::Image(b"postgres"));
    all.insert(second);
    assert_eq!(all.len(), 2);
    all.insert(third);
    assert_eq!(all.len(), 2);
    assert_eq!(all.get(b"db").unwrap().manifest(), Manifest::Image(b"mysql"));
    assert_eq!(all.get(b"db").unwrap().arguments().len(), 1);
    assert_eq!(all.get(b"web").unwrap().manifest(), Manifest::Image(b"nginx"));
    assert!(all.contains_key(b"web"));
    assert!(!all.contains_key(b"we"));
    assert_eq!(all.as_slice().len(), 2);
}

#[test]
fn a_failure_holds_what_was_expected_and_where() {
    let error = ParseError::new(b"rest", Expected::Colon);
    assert_eq!(error.expected, Expected::Colon);
    assert_eq!(error.remaining, b"rest");
    assert_eq!(error.offset(b"the rest"), Some(4));
}

#[test]
fn equal_arguments_hash_alike() {
    let mut seen = std::collections::HashSet::new();
    let text = b"/a".to_vec();
    assert!(seen.insert(Argument::Volume { source: &text, mount: b"/b" }));
    assert!(!seen.insert(Argument::Volume { source: b"/a", mount: b"/b" }));
    assert!(seen.insert(Argument::Volume { source: b"/a", mount: b"/c" }));
    assert!(seen.insert(Argument::ExposePort { port: 1 }));
    assert!(!seen.insert(Argument::ExposePort { port: 1 }));
    assert!(seen.insert(Argument::PublishPort { outer: 1, inner: 1 }));
    assert!(seen.insert(Argument::VolumeFrom { name: b"/a" }));
    assert_eq!(seen.len(), 5);
}

#[test]
fn letters_beyond_ascii_may_stand_in_paths_and_manifest_texts() {
    let (_, found) = volume(b": /caf\xe9:/mnt/\xfc\n").unwrap();
    assert_eq!(found, Argument::Volume { source: b"/caf\xe9", mount: b"/mnt/\xfc" });
    let (_, found) = shell(b"@shell:\n\tpath: /bin/\xe9\n").unwrap();
    assert_eq!(found.path(), b"/bin/\xe9");
    let (_, found) = manifest(b"from: caf\xe9:latest\n").unwrap();
    assert_eq!(found, Manifest::Image(b"caf\xe9:latest"));
    assert_eq!(volume(b": /caf\xa9:/mnt\n").unwrap_err().expected, Expected::Path);
    assert!(container(b"@caf\xe9:\n\tfrom: x\n").is_err());
}
