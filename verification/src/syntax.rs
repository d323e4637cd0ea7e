//! The lines of the language, written out.
//!
//! The parsers say what is read from an input. The laws of this module say
//! it the other way round: a line that is written as the grammar has it is
//! accepted, and yields the value that it shows. A line is written as the
//! chain of its parts, `a + (b + (c + rest))`.
use vstd::prelude::*;
use crate::arguments::{
    decimal, expose_keyword, port_keyword, spec_argument, spec_expose, spec_parse_to_u16,
    spec_port, spec_separator, spec_volume, spec_volume_from, volume_from_keyword,
    volume_keyword, ArgumentModel,
};
use crate::container::{
    at_sign, spec_argument_line, spec_arguments, spec_container, spec_container_head,
    ContainerModel,
};
use crate::containers::containers_map;
use crate::document::{spec_blank_lines, spec_containers, spec_parse, DocumentModel};
use crate::error::{Expected, Failure};
use crate::manifest::{classify, from_key, spec_manifest, ManifestModel};
use crate::name::{colon, spec_container_name};
use crate::primitives::{
    four_spaces, one_nul, one_space, one_tab, spec_line_feed, spec_tab, spec_tag,
    spec_take_until_colon,
};
use crate::shell::{default_shell_path, path_key, shell_header, spec_shell, ShellModel};
use crate::text::{all_in_class, class_allows, lemma_run_len_is, spec_run, CharClass};

verus! {

/// The byte string `\n`.
pub open spec fn line_break() -> Seq<u8> {
    seq!['\n' as u8]
}

/// The byte string `\r\n`.
pub open spec fn carriage_line_break() -> Seq<u8> {
    seq!['\r' as u8, '\n' as u8]
}

/// What may end a value: `\n`, `\r\n` or NUL.
pub open spec fn is_value_end(ending: Seq<u8>) -> bool {
    ending == line_break() || ending == carriage_line_break() || ending == one_nul()
}

/// What may indent a line: one tab or four spaces.
pub open spec fn is_indent(indent: Seq<u8>) -> bool {
    indent == one_tab() || indent == four_spaces()
}

/// A text of one byte or more, all of them of `class`.
pub open spec fn is_text_of(text: Seq<u8>, class: CharClass) -> bool {
    text.len() > 0 && all_in_class(text, class)
}

/// A literal at the start of the input is matched.
pub proof fn lemma_tag_accepts(literal: Seq<u8>, rest: Seq<u8>, expected: Expected)
    ensures
        spec_tag(literal + rest, literal, expected) == Ok::<(Seq<u8>, Seq<u8>), Failure>(
            (rest, literal),
        ),
{
    assert((literal + rest).subrange(0, literal.len() as int) =~= literal);
    assert((literal + rest).skip(literal.len() as int) =~= rest);
}

/// A text of a class is read as a run where no byte of the class follows it.
pub proof fn lemma_run_accepts(
    text: Seq<u8>,
    rest: Seq<u8>,
    class: CharClass,
    expected: Expected,
)
    requires
        is_text_of(text, class),
        rest.len() > 0 ==> !class_allows(class, rest[0]),
    ensures
        spec_run(text + rest, class, expected) == Ok::<(Seq<u8>, Seq<u8>), Failure>((rest, text)),
{
    let s = text + rest;
    assert forall|i: int| 0 <= i < text.len() implies class_allows(class, #[trigger] s[i]) by {
        assert(s[i] == text[i]);
    }
    if text.len() < s.len() {
        assert(s[text.len() as int] == rest[0]);
    }
    lemma_run_len_is(s, class, text.len() as int);
    assert(s.take(text.len() as int) =~= text);
    assert(s.skip(text.len() as int) =~= rest);
}

/// A text without `:` is read up to the `:` that follows it.
pub proof fn lemma_until_colon_accepts(text: Seq<u8>, rest: Seq<u8>)
    requires
        all_in_class(text, CharClass::NotColon),
        rest.len() > 0 && rest[0] == ':' as u8,
    ensures
        spec_take_until_colon(text + rest) == Ok::<(Seq<u8>, Seq<u8>), Failure>((rest, text)),
{
    let s = text + rest;
    assert forall|i: int| 0 <= i < text.len() implies class_allows(
        CharClass::NotColon,
        #[trigger] s[i],
    ) by {
        assert(s[i] == text[i]);
    }
    assert(s[text.len() as int] == rest[0]);
    lemma_run_len_is(s, CharClass::NotColon, text.len() as int);
    assert(s.take(text.len() as int) =~= text);
    assert(s.skip(text.len() as int) =~= rest);
}

/// The end of a value is matched, and it begins with a byte that belongs to
/// no text.
pub proof fn lemma_value_end_accepts(ending: Seq<u8>, rest: Seq<u8>)
    requires
        is_value_end(ending),
    ensures
        spec_line_feed(ending + rest) == Ok::<(Seq<u8>, Seq<u8>), Failure>((rest, ending)),
        !class_allows(CharClass::Path, (ending + rest)[0]),
        !class_allows(CharClass::ManifestText, (ending + rest)[0]),
        !class_allows(CharClass::Name, (ending + rest)[0]),
        !class_allows(CharClass::Digit, (ending + rest)[0]),
        (ending + rest).len() > 0,
{
    let s = ending + rest;
    assert(s[0] == ending[0]);
    if ending == carriage_line_break() {
        assert(s[1] == ending[1]);
    }
    assert(s.take(ending.len() as int) =~= ending);
    assert(s.skip(ending.len() as int) =~= rest);
    assert(s.subrange(0, ending.len() as int) =~= ending);
}

/// Indentation at the start of the input is matched.
pub proof fn lemma_indent_accepts(indent: Seq<u8>, rest: Seq<u8>)
    requires
        is_indent(indent),
    ensures
        spec_tab(indent + rest) == Ok::<(Seq<u8>, Seq<u8>), Failure>((rest, indent)),
{
    let s = indent + rest;
    lemma_tag_accepts(indent, rest, Expected::Indent);
    if indent == four_spaces() {
        assert(s[0] == indent[0]);
        assert(!one_tab().is_prefix_of(s)) by {
            if one_tab().is_prefix_of(s) {
                assert(s.subrange(0, 1)[0] == one_tab()[0]);
            }
        }
    }
}

/// The manifest line `from: <text>` is accepted for every manifest text, and
/// yields the manifest that the text names.
pub proof fn law_manifest_line_accepted(text: Seq<u8>, ending: Seq<u8>, rest: Seq<u8>)
    requires
        is_text_of(text, CharClass::ManifestText),
        is_value_end(ending),
    ensures
        spec_manifest(from_key() + (one_space() + (text + (ending + rest)))) == Ok::<
            (Seq<u8>, ManifestModel),
            Failure,
        >((rest, classify(text))),
{
    let s3 = ending + rest;
    let s2 = text + s3;
    let s1 = one_space() + s2;
    lemma_tag_accepts(from_key(), s1, Expected::FromKey);
    lemma_tag_accepts(one_space(), s2, Expected::Space);
    lemma_value_end_accepts(ending, rest);
    lemma_run_accepts(text, s3, CharClass::ManifestText, Expected::ManifestText);
}

/// The shell block
///
/// ```text
/// @shell:
///     path: <path>
/// ```
///
/// is accepted for every path, and yields the shell of that path.
pub proof fn law_shell_block_accepted(
    header_end: Seq<u8>,
    indent: Seq<u8>,
    path: Seq<u8>,
    ending: Seq<u8>,
    rest: Seq<u8>,
)
    requires
        is_value_end(header_end),
        is_indent(indent),
        is_text_of(path, CharClass::Path),
        is_value_end(ending),
    ensures
        spec_shell(
            shell_header() + (header_end + (indent + (path_key() + (one_space() + (path + (ending
                + rest)))))),
        ) == Ok::<(Seq<u8>, ShellModel), Failure>((rest, ShellModel { path })),
{
    let s6 = ending + rest;
    let s5 = path + s6;
    let s4 = one_space() + s5;
    let s3 = path_key() + s4;
    let s2 = indent + s3;
    let s1 = header_end + s2;
    lemma_tag_accepts(shell_header(), s1, Expected::ShellHeader);
    lemma_value_end_accepts(header_end, s2);
    lemma_indent_accepts(indent, s3);
    lemma_tag_accepts(path_key(), s4, Expected::PathKey);
    lemma_tag_accepts(one_space(), s5, Expected::Space);
    lemma_value_end_accepts(ending, rest);
    lemma_run_accepts(path, s6, CharClass::Path, Expected::Path);
}

/// The `: ` after a keyword is matched.
pub proof fn lemma_separator_accepts(rest: Seq<u8>)
    ensures
        spec_separator(colon() + (one_space() + rest)) == Ok::<(Seq<u8>, Seq<u8>), Failure>(
            (rest, one_space()),
        ),
{
    let s1 = one_space() + rest;
    lemma_tag_accepts(colon(), s1, Expected::Colon);
    lemma_tag_accepts(one_space(), rest, Expected::Space);
}

/// The keyword of a line is read up to its `:`.
pub proof fn lemma_keyword_accepts(keyword: Seq<u8>, rest: Seq<u8>)
    requires
        keyword == volume_keyword() || keyword == port_keyword() || keyword == expose_keyword()
            || keyword == volume_from_keyword(),
    ensures
        spec_take_until_colon(keyword + (colon() + rest)) == Ok::<(Seq<u8>, Seq<u8>), Failure>(
            (colon() + rest, keyword),
        ),
{
    assert((colon() + rest)[0] == colon()[0]);
    lemma_until_colon_accepts(keyword, colon() + rest);
}

/// The line `volume: <source>:<mount>` is accepted for every two paths.
pub proof fn law_volume_line_accepted(
    source: Seq<u8>,
    mount: Seq<u8>,
    ending: Seq<u8>,
    rest: Seq<u8>,
)
    requires
        is_text_of(source, CharClass::Path),
        is_text_of(mount, CharClass::Path),
        is_value_end(ending),
    ensures
        spec_argument(
            volume_keyword() + (colon() + (one_space() + (source + (colon() + (mount + (ending
                + rest)))))),
        ) == Ok::<(Seq<u8>, ArgumentModel), Failure>(
            (rest, ArgumentModel::Volume { source, mount }),
        ),
{
    let s5 = ending + rest;
    let s4 = mount + s5;
    let s3 = colon() + s4;
    let s2 = source + s3;
    let s1 = colon() + (one_space() + s2);
    lemma_keyword_accepts(volume_keyword(), one_space() + s2);
    lemma_separator_accepts(s2);
    assert(s3[0] == colon()[0]);
    assert forall|i: int| 0 <= i < source.len() implies class_allows(
        CharClass::NotColon,
        #[trigger] source[i],
    ) by {
        assert(class_allows(CharClass::Path, source[i]));
    }
    lemma_until_colon_accepts(source, s3);
    lemma_tag_accepts(colon(), s4, Expected::Colon);
    lemma_value_end_accepts(ending, rest);
    lemma_run_accepts(mount, s5, CharClass::Path, Expected::Path);
    assert(spec_volume(s1) == Ok::<(Seq<u8>, ArgumentModel), Failure>(
        (rest, ArgumentModel::Volume { source, mount }),
    ));
}

/// The line `volume-from: <name>` is accepted for every name.
pub proof fn law_volume_from_line_accepted(name: Seq<u8>, ending: Seq<u8>, rest: Seq<u8>)
    requires
        is_text_of(name, CharClass::Name),
        is_value_end(ending),
    ensures
        spec_argument(
            volume_from_keyword() + (colon() + (one_space() + (name + (ending + rest)))),
        ) == Ok::<(Seq<u8>, ArgumentModel), Failure>((rest, ArgumentModel::VolumeFrom { name })),
{
    let s3 = ending + rest;
    let s2 = name + s3;
    let s1 = colon() + (one_space() + s2);
    lemma_keyword_accepts(volume_from_keyword(), one_space() + s2);
    lemma_separator_accepts(s2);
    lemma_value_end_accepts(ending, rest);
    lemma_run_accepts(name, s3, CharClass::Name, Expected::Name);
    assert(spec_volume_from(s1) == Ok::<(Seq<u8>, ArgumentModel), Failure>(
        (rest, ArgumentModel::VolumeFrom { name }),
    ));
    assert(volume_from_keyword() != volume_keyword()) by {
        assert(volume_from_keyword().len() != volume_keyword().len());
    }
    assert(volume_from_keyword() != port_keyword()) by {
        assert(volume_from_keyword().len() != port_keyword().len());
    }
    assert(volume_from_keyword() != expose_keyword()) by {
        assert(volume_from_keyword().len() != expose_keyword().len());
    }
}

/// A text of digits that denotes a number up to 65535.
pub open spec fn is_port_text(text: Seq<u8>) -> bool {
    is_text_of(text, CharClass::Digit) && decimal(text) <= 0xffff
}

/// The line `expose: <port>` is accepted for every port.
pub proof fn law_expose_line_accepted(text: Seq<u8>, ending: Seq<u8>, rest: Seq<u8>)
    requires
        is_port_text(text),
        is_value_end(ending),
    ensures
        spec_argument(expose_keyword() + (colon() + (one_space() + (text + (ending + rest)))))
            == Ok::<(Seq<u8>, ArgumentModel), Failure>(
            (rest, ArgumentModel::ExposePort { port: decimal(text) as u16 }),
        ),
{
    let s3 = ending + rest;
    let s2 = text + s3;
    let s1 = colon() + (one_space() + s2);
    lemma_keyword_accepts(expose_keyword(), one_space() + s2);
    lemma_separator_accepts(s2);
    lemma_value_end_accepts(ending, rest);
    lemma_run_accepts(text, s3, CharClass::Digit, Expected::Digits);
    assert(spec_expose(s1) == Ok::<(Seq<u8>, ArgumentModel), Failure>(
        (rest, ArgumentModel::ExposePort { port: decimal(text) as u16 }),
    ));
    assert(expose_keyword() != volume_keyword()) by {
        assert(expose_keyword()[0] != volume_keyword()[0]);
    }
    assert(expose_keyword() != port_keyword()) by {
        assert(expose_keyword().len() != port_keyword().len());
    }
}

/// The line `port: <outer>:<inner>` is accepted for every two ports.
pub proof fn law_port_line_accepted(
    outer: Seq<u8>,
    inner: Seq<u8>,
    ending: Seq<u8>,
    rest: Seq<u8>,
)
    requires
        is_port_text(outer),
        is_port_text(inner),
        is_value_end(ending),
    ensures
        spec_argument(
            port_keyword() + (colon() + (one_space() + (outer + (colon() + (inner + (ending
                + rest)))))),
        ) == Ok::<(Seq<u8>, ArgumentModel), Failure>(
            (
                rest,
                ArgumentModel::PublishPort {
                    outer: decimal(outer) as u16,
                    inner: decimal(inner) as u16,
                },
            ),
        ),
{
    let s5 = ending + rest;
    let s4 = inner + s5;
    let s3 = colon() + s4;
    let s2 = outer + s3;
    let s1 = colon() + (one_space() + s2);
    lemma_keyword_accepts(port_keyword(), one_space() + s2);
    lemma_separator_accepts(s2);
    assert(s3[0] == colon()[0]);
    assert forall|i: int| 0 <= i < outer.len() implies class_allows(
        CharClass::NotColon,
        #[trigger] outer[i],
    ) by {
        assert(class_allows(CharClass::Digit, outer[i]));
    }
    lemma_until_colon_accepts(outer, s3);
    lemma_tag_accepts(colon(), s4, Expected::Colon);
    lemma_value_end_accepts(ending, rest);
    lemma_run_accepts(inner, s5, CharClass::Digit, Expected::Digits);
    assert(spec_parse_to_u16(outer) == Ok::<u16, crate::arguments::PortError>(
        decimal(outer) as u16,
    ));
    assert(spec_port(s1) == Ok::<(Seq<u8>, ArgumentModel), Failure>(
        (
            rest,
            ArgumentModel::PublishPort {
                outer: decimal(outer) as u16,
                inner: decimal(inner) as u16,
            },
        ),
    ));
    assert(port_keyword() != volume_keyword()) by {
        assert(port_keyword().len() != volume_keyword().len());
    }
}

/// An argument line is an argument behind indentation.
pub proof fn law_argument_line_accepted(indent: Seq<u8>, line: Seq<u8>)
    requires
        is_indent(indent),
    ensures
        spec_argument_line(indent + line) == spec_argument(line),
{
    lemma_indent_accepts(indent, line);
}

/// The head of a container block
///
/// ```text
/// @<name>:
///     from: <text>
/// ```
///
/// is accepted for every name of name characters, the empty one too, and
/// every manifest text.
pub proof fn law_container_head_accepted(
    name: Seq<u8>,
    header_end: Seq<u8>,
    indent: Seq<u8>,
    text: Seq<u8>,
    ending: Seq<u8>,
    rest: Seq<u8>,
)
    requires
        all_in_class(name, CharClass::Name),
        is_value_end(header_end),
        is_indent(indent),
        is_text_of(text, CharClass::ManifestText),
        is_value_end(ending),
    ensures
        spec_container_head(
            at_sign() + (name + (colon() + (header_end + (indent + (from_key() + (one_space() + (
            text + (ending + rest)))))))),
        ) == Ok::<(Seq<u8>, (Seq<u8>, ManifestModel)), Failure>((rest, (name, classify(text)))),
{
    let s5 = from_key() + (one_space() + (text + (ending + rest)));
    let s4 = indent + s5;
    let s3 = header_end + s4;
    let s2 = colon() + s3;
    let s1 = name + s2;
    lemma_tag_accepts(at_sign(), s1, Expected::At);
    assert(s2[0] == colon()[0]);
    assert forall|i: int| 0 <= i < name.len() implies class_allows(
        CharClass::NotColon,
        #[trigger] name[i],
    ) by {
        assert(class_allows(CharClass::Name, name[i]));
    }
    lemma_until_colon_accepts(name, s2);
    lemma_tag_accepts(colon(), s3, Expected::Colon);
    assert(spec_container_name(s1) == Ok::<(Seq<u8>, Seq<u8>), Failure>((s3, name)));
    lemma_value_end_accepts(header_end, s4);
    lemma_indent_accepts(indent, s5);
    law_manifest_line_accepted(text, ending, rest);
}

/// The name `shell`.
pub open spec fn shell_word() -> Seq<u8> {
    seq!['s' as u8, 'h' as u8, 'e' as u8, 'l' as u8, 'l' as u8]
}

/// The input `@<name>:` and what follows begins with `@shell:` only if the
/// name is `shell`.
pub proof fn lemma_header_of_other_name(name: Seq<u8>, rest: Seq<u8>)
    requires
        all_in_class(name, CharClass::Name),
        name != shell_word(),
    ensures
        !shell_header().is_prefix_of(at_sign() + (name + (colon() + rest))),
{
    let s = at_sign() + (name + (colon() + rest));
    if shell_header().is_prefix_of(s) {
        let head = s.subrange(0, 7);
        assert(head =~= shell_header());
        assert forall|i: int| 0 <= i < 7 implies s[i] == #[trigger] shell_header()[i] by {
            assert(head[i] == s[i]);
        }
        if name.len() < 5 {
            let at = 1 + name.len() as int;
            assert(s[at] == colon()[0]);
            assert(s[at] == shell_header()[at]);
        } else if name.len() > 5 {
            assert(s[6] == name[5]);
            assert(class_allows(CharClass::Name, name[5]));
            assert(s[6] == shell_header()[6]);
        } else {
            assert forall|i: int| 0 <= i < 5 implies name[i] == #[trigger] shell_word()[i] by {
                assert(s[i + 1] == name[i]);
                assert(s[i + 1] == shell_header()[i + 1]);
            }
            assert(name =~= shell_word());
        }
    }
}

/// The text of a block of one container without arguments:
///
/// ```text
/// @<name>:
///     from: <text>
/// ```
pub open spec fn single_block(name: Seq<u8>, text: Seq<u8>) -> Seq<u8> {
    at_sign() + (name + (colon() + (line_break() + (one_tab() + (from_key() + (one_space() + (text
        + (line_break() + Seq::empty()))))))))
}

/// The empty input holds no argument lines.
pub proof fn lemma_no_argument_lines()
    ensures
        spec_arguments(Seq::empty()).items == Seq::<ArgumentModel>::empty(),
        spec_arguments(Seq::empty()).rest == Seq::<u8>::empty(),
{
    let nothing = Seq::<u8>::empty();
    assert(spec_tab(nothing) is Err);
    assert(spec_arguments(nothing).items =~= Seq::<ArgumentModel>::empty());
}

/// The empty input holds no container blocks.
pub proof fn lemma_no_container_blocks()
    ensures
        spec_containers(Seq::empty()).items == Seq::<ContainerModel>::empty(),
        spec_containers(Seq::empty()).rest == Seq::<u8>::empty(),
{
    let nothing = Seq::<u8>::empty();
    assert(spec_tag(nothing, at_sign(), Expected::At) is Err);
    assert(spec_container_head(nothing) is Err);
    assert(spec_container(nothing) is Err);
    assert(spec_containers(nothing).items =~= Seq::<ContainerModel>::empty());
}

/// A block of one container without arguments is accepted.
pub proof fn lemma_single_block_container(name: Seq<u8>, text: Seq<u8>)
    requires
        all_in_class(name, CharClass::Name),
        is_text_of(text, CharClass::ManifestText),
    ensures
        spec_container(single_block(name, text)) == Ok::<(Seq<u8>, ContainerModel), Failure>(
            (
                Seq::empty(),
                ContainerModel { name, manifest: classify(text), arguments: Seq::empty() },
            ),
        ),
{
    law_container_head_accepted(name, line_break(), one_tab(), text, line_break(), Seq::empty());
    lemma_no_argument_lines();
}

/// The blocks of a document of one block are that block.
pub proof fn lemma_single_block_containers(name: Seq<u8>, text: Seq<u8>)
    requires
        all_in_class(name, CharClass::Name),
        is_text_of(text, CharClass::ManifestText),
    ensures
        spec_containers(single_block(name, text)).items == seq![
            ContainerModel { name, manifest: classify(text), arguments: Seq::empty() },
        ],
        spec_containers(single_block(name, text)).rest == Seq::<u8>::empty(),
{
    let nothing = Seq::<u8>::empty();
    let block = ContainerModel { name, manifest: classify(text), arguments: Seq::empty() };
    lemma_single_block_container(name, text);
    lemma_no_container_blocks();
    assert(spec_blank_lines(nothing) == nothing);
    assert(spec_containers(single_block(name, text)).items =~= seq![block]);
}

/// The document of one block is accepted for every name but `shell` and
/// every manifest text. It holds the one container, without arguments, and
/// has the default shell.
pub proof fn law_single_block_accepted(name: Seq<u8>, text: Seq<u8>)
    requires
        all_in_class(name, CharClass::Name),
        name != shell_word(),
        is_text_of(text, CharClass::ManifestText),
    ensures
        spec_parse(single_block(name, text)) == Ok::<DocumentModel, Failure>(
            DocumentModel {
                shell: ShellModel { path: default_shell_path() },
                containers: Map::<Seq<u8>, ContainerModel>::empty().insert(
                    name,
                    ContainerModel { name, manifest: classify(text), arguments: Seq::empty() },
                ),
            },
        ),
{
    let block = ContainerModel { name, manifest: classify(text), arguments: Seq::empty() };
    lemma_header_of_other_name(
        name,
        line_break() + (one_tab() + (from_key() + (one_space() + (text + (line_break()
            + Seq::empty()))))),
    );
    lemma_single_block_containers(name, text);
    assert(containers_map(seq![block]) =~= Map::<Seq<u8>, ContainerModel>::empty().insert(
        name,
        block,
    )) by {
        reveal_with_fuel(containers_map, 2);
        assert(seq![block].drop_last() =~= Seq::<ContainerModel>::empty());
    }
}

} // verus!
