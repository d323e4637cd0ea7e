//! The texts of a parsed value are pieces of the input.
//!
//! A parser copies nothing: a path, a name or a manifest text that it yields
//! is a run of bytes of its input. The one text that is not is the path of
//! the default shell.
use vstd::prelude::*;
use crate::arguments::{
    expose_keyword, lemma_separator, port_keyword, spec_argument, spec_parse_volume_name,
    spec_separator, spec_volume, spec_volume_from, volume_from_keyword, volume_keyword,
    ArgumentModel,
};
use crate::container::{
    at_sign, lemma_argument_line, lemma_container, lemma_container_head, spec_argument_line,
    spec_arguments, spec_container, ContainerModel,
};
use crate::containers::{containers_map, lemma_map_values};
use crate::document::{
    lemma_blank_lines, lemma_shell_block, spec_blank_lines, spec_containers, spec_parse,
    spec_shell_block, DocumentModel,
};
use crate::error::{is_tail, lemma_tail_trans, Expected};
use crate::manifest::{from_key, spec_manifest, spec_parse_manifest, ManifestModel};
use crate::name::{colon, lemma_container_name, spec_container_name};
use crate::path::spec_parse_path;
use crate::primitives::{
    group_primitives, lemma_tab, lemma_take_until_colon, spec_line_feed, spec_space, spec_tab,
    spec_tag, spec_take_until_colon,
};
use crate::shell::{default_shell_path, path_key, shell_header, spec_shell};
use crate::text::{lemma_run_len, run_len, spec_run, CharClass};

verus! {

/// `piece` stands in `s`: its bytes are bytes of `s` that follow one another.
pub open spec fn is_piece(piece: Seq<u8>, s: Seq<u8>) -> bool {
    exists|from: int|
        0 <= from && from + piece.len() <= s.len() && #[trigger] s.subrange(
            from,
            from + piece.len(),
        ) == piece
}

impl ManifestModel {
    /// The text of the manifest is a piece of `s`.
    pub open spec fn drawn_from(self, s: Seq<u8>) -> bool {
        is_piece(self.text(), s)
    }
}

impl ArgumentModel {
    /// The texts of the argument are pieces of `s`.
    pub open spec fn drawn_from(self, s: Seq<u8>) -> bool {
        match self {
            ArgumentModel::Volume { source, mount } => is_piece(source, s) && is_piece(mount, s),
            ArgumentModel::PublishPort { .. } => true,
            ArgumentModel::ExposePort { .. } => true,
            ArgumentModel::VolumeFrom { name } => is_piece(name, s),
        }
    }
}

impl ContainerModel {
    /// The texts of the container are pieces of `s`.
    pub open spec fn drawn_from(self, s: Seq<u8>) -> bool {
        &&& is_piece(self.name, s)
        &&& self.manifest.drawn_from(s)
        &&& forall|i: int|
            0 <= i < self.arguments.len() ==> (#[trigger] self.arguments[i]).drawn_from(s)
    }
}

impl DocumentModel {
    /// The texts of the document are pieces of `s`, but for the path of the
    /// default shell.
    pub open spec fn drawn_from(self, s: Seq<u8>) -> bool {
        &&& self.shell.path == default_shell_path() || is_piece(self.shell.path, s)
        &&& forall|name: Seq<u8>|
            self.containers.contains_key(name) ==> (#[trigger] self.containers[name]).drawn_from(s)
    }
}

/// A piece of a tail of `s` is a piece of `s`.
pub proof fn lemma_piece_of_tail(piece: Seq<u8>, tail: Seq<u8>, s: Seq<u8>)
    requires
        is_piece(piece, tail),
        is_tail(tail, s),
    ensures
        is_piece(piece, s),
{
    let from = choose|from: int|
        0 <= from && from + piece.len() <= tail.len() && #[trigger] tail.subrange(
            from,
            from + piece.len(),
        ) == piece;
    let shift = s.len() - tail.len();
    assert(s.subrange(shift + from, shift + from + piece.len()) =~= piece);
}

/// A prefix of `s` is a piece of `s`.
pub proof fn lemma_prefix_is_piece(s: Seq<u8>, n: int)
    requires
        0 <= n <= s.len(),
    ensures
        is_piece(s.take(n), s),
{
    assert(s.subrange(0, 0 + s.take(n).len() as int) =~= s.take(n));
}

/// An argument drawn from a tail of `s` is drawn from `s`.
pub proof fn lemma_argument_of_tail(argument: ArgumentModel, tail: Seq<u8>, s: Seq<u8>)
    requires
        argument.drawn_from(tail),
        is_tail(tail, s),
    ensures
        argument.drawn_from(s),
{
    match argument {
        ArgumentModel::Volume { source, mount } => {
            lemma_piece_of_tail(source, tail, s);
            lemma_piece_of_tail(mount, tail, s);
        },
        ArgumentModel::VolumeFrom { name } => {
            lemma_piece_of_tail(name, tail, s);
        },
        _ => {},
    }
}

/// A container drawn from a tail of `s` is drawn from `s`.
pub proof fn lemma_container_of_tail(container: ContainerModel, tail: Seq<u8>, s: Seq<u8>)
    requires
        container.drawn_from(tail),
        is_tail(tail, s),
    ensures
        container.drawn_from(s),
{
    lemma_piece_of_tail(container.name, tail, s);
    lemma_piece_of_tail(container.manifest.text(), tail, s);
    assert forall|i: int| 0 <= i < container.arguments.len() implies (
    #[trigger] container.arguments[i]).drawn_from(s) by {
        lemma_argument_of_tail(container.arguments[i], tail, s);
    }
}

/// A run is a piece of the input.
pub proof fn lemma_run_drawn(s: Seq<u8>, class: CharClass, expected: Expected)
    ensures
        spec_run(s, class, expected) matches Ok((_, run)) ==> is_piece(run, s),
{
    lemma_run_len(s, class);
    if spec_run(s, class, expected) is Ok {
        lemma_prefix_is_piece(s, run_len(s, class) as int);
    }
}

/// The text before a `:` is a piece of the input.
pub proof fn lemma_until_colon_drawn(s: Seq<u8>)
    ensures
        spec_take_until_colon(s) matches Ok((_, text)) ==> is_piece(text, s),
{
    lemma_take_until_colon(s);
    if spec_take_until_colon(s) is Ok {
        lemma_prefix_is_piece(s, run_len(s, CharClass::NotColon) as int);
    }
}

/// The path of a shell block is a piece of the input.
pub proof fn lemma_shell_drawn(s: Seq<u8>)
    ensures
        spec_shell(s) matches Ok((_, shell)) ==> is_piece(shell.path, s),
{
    broadcast use {group_primitives, lemma_tail_trans};

    if let Ok((s1, _)) = spec_tag(s, shell_header(), Expected::ShellHeader) {
        if let Ok((s2, _)) = spec_line_feed(s1) {
            if let Ok((s3, _)) = spec_tab(s2) {
                if let Ok((s4, _)) = spec_tag(s3, path_key(), Expected::PathKey) {
                    if let Ok((s5, _)) = spec_space(s4) {
                        if let Ok((s6, path)) = spec_parse_path(s5) {
                            lemma_run_drawn(s5, CharClass::Path, Expected::Path);
                            lemma_piece_of_tail(path, s5, s);
                        }
                    }
                }
            }
        }
    }
}

/// The text of a manifest line is a piece of the input.
pub proof fn lemma_manifest_drawn(s: Seq<u8>)
    ensures
        spec_manifest(s) matches Ok((_, manifest)) ==> manifest.drawn_from(s),
{
    broadcast use {group_primitives, lemma_tail_trans};

    if let Ok((s1, _)) = spec_tag(s, from_key(), Expected::FromKey) {
        if let Ok((s2, _)) = spec_space(s1) {
            if let Ok((s3, text)) = spec_parse_manifest(s2) {
                lemma_run_drawn(s2, CharClass::ManifestText, Expected::ManifestText);
                lemma_piece_of_tail(text, s2, s);
            }
        }
    }
}

/// A container name is a piece of the input.
pub proof fn lemma_container_name_drawn(s: Seq<u8>)
    ensures
        spec_container_name(s) matches Ok((_, name)) ==> is_piece(name, s),
{
    lemma_until_colon_drawn(s);
}

/// The texts of a `volume` line are pieces of the input.
pub proof fn lemma_volume_drawn(s: Seq<u8>)
    ensures
        spec_volume(s) matches Ok((_, argument)) ==> argument.drawn_from(s),
{
    broadcast use {group_primitives, lemma_tail_trans, lemma_separator};

    if let Ok((s1, _)) = spec_separator(s) {
        if let Ok((s2, source)) = spec_take_until_colon(s1) {
            lemma_until_colon_drawn(s1);
            lemma_piece_of_tail(source, s1, s);
            if let Ok((s3, _)) = spec_tag(s2, colon(), Expected::Colon) {
                if let Ok((s4, mount)) = spec_parse_path(s3) {
                    lemma_run_drawn(s3, CharClass::Path, Expected::Path);
                    lemma_piece_of_tail(mount, s3, s);
                }
            }
        }
    }
}

/// The name of a `volume-from` line is a piece of the input.
pub proof fn lemma_volume_from_drawn(s: Seq<u8>)
    ensures
        spec_volume_from(s) matches Ok((_, argument)) ==> argument.drawn_from(s),
{
    broadcast use {group_primitives, lemma_tail_trans, lemma_separator};

    if let Ok((s1, _)) = spec_separator(s) {
        if let Ok((s2, name)) = spec_parse_volume_name(s1) {
            lemma_run_drawn(s1, CharClass::Name, Expected::Name);
            lemma_piece_of_tail(name, s1, s);
        }
    }
}

/// The texts of an argument are pieces of the input.
pub proof fn lemma_argument_drawn(s: Seq<u8>)
    ensures
        spec_argument(s) matches Ok((_, argument)) ==> argument.drawn_from(s),
{
    lemma_take_until_colon(s);
    if let Ok((rest, keyword)) = spec_take_until_colon(s) {
        if keyword == volume_keyword() {
            lemma_volume_drawn(rest);
            if let Ok((_, argument)) = spec_volume(rest) {
                lemma_argument_of_tail(argument, rest, s);
            }
        } else if keyword == port_keyword() {
        } else if keyword == expose_keyword() {
        } else if keyword == volume_from_keyword() {
            lemma_volume_from_drawn(rest);
            if let Ok((_, argument)) = spec_volume_from(rest) {
                lemma_argument_of_tail(argument, rest, s);
            }
        }
    }
}

/// The texts of an argument line are pieces of the input.
pub proof fn lemma_argument_line_drawn(s: Seq<u8>)
    ensures
        spec_argument_line(s) matches Ok((_, argument)) ==> argument.drawn_from(s),
{
    lemma_tab(s);
    if let Ok((s1, _)) = spec_tab(s) {
        lemma_argument_drawn(s1);
        if let Ok((_, argument)) = spec_argument(s1) {
            lemma_argument_of_tail(argument, s1, s);
        }
    }
}

/// The texts of the arguments of a block are pieces of the input.
pub proof fn lemma_arguments_drawn(s: Seq<u8>)
    ensures
        forall|i: int|
            0 <= i < spec_arguments(s).items.len() ==> (#[trigger] spec_arguments(
                s,
            ).items[i]).drawn_from(s),
    decreases s.len(),
{
    lemma_argument_line(s);
    lemma_argument_line_drawn(s);
    if let Ok((s1, first)) = spec_argument_line(s) {
        lemma_arguments_drawn(s1);
        let more = spec_arguments(s1).items;
        assert forall|i: int| 0 <= i < spec_arguments(s).items.len() implies (
        #[trigger] spec_arguments(s).items[i]).drawn_from(s) by {
            if i > 0 {
                assert(spec_arguments(s).items[i] == more[i - 1]);
                lemma_argument_of_tail(more[i - 1], s1, s);
            }
        }
    }
}

/// The texts of a container are pieces of the input.
pub proof fn lemma_container_drawn(s: Seq<u8>)
    ensures
        spec_container(s) matches Ok((_, container)) ==> container.drawn_from(s),
{
    broadcast use {group_primitives, lemma_tail_trans};

    if let Ok((s1, _)) = spec_tag(s, at_sign(), Expected::At) {
        if let Ok((s2, name)) = spec_container_name(s1) {
            lemma_container_name_drawn(s1);
            lemma_piece_of_tail(name, s1, s);
            lemma_container_name(s1);
            if let Ok((s3, _)) = spec_line_feed(s2) {
                if let Ok((s4, _)) = spec_tab(s3) {
                    if let Ok((body, manifest)) = spec_manifest(s4) {
                        lemma_manifest_drawn(s4);
                        lemma_piece_of_tail(manifest.text(), s4, s);
                        lemma_container_head(s);
                        lemma_arguments_drawn(body);
                        let items = spec_arguments(body).items;
                        assert forall|i: int| 0 <= i < items.len() implies (
                        #[trigger] items[i]).drawn_from(s) by {
                            lemma_argument_of_tail(items[i], body, s);
                        }
                    }
                }
            }
        }
    }
}

/// The texts of the containers of a document are pieces of the input.
pub proof fn lemma_containers_drawn(s: Seq<u8>)
    ensures
        forall|i: int|
            0 <= i < spec_containers(s).items.len() ==> (#[trigger] spec_containers(
                s,
            ).items[i]).drawn_from(s),
    decreases s.len(),
{
    lemma_container(s);
    lemma_container_drawn(s);
    if let Ok((s1, first)) = spec_container(s) {
        let s2 = spec_blank_lines(s1);
        lemma_blank_lines(s1);
        lemma_tail_trans(s2, s1, s);
        lemma_containers_drawn(s2);
        let more = spec_containers(s2).items;
        assert forall|i: int| 0 <= i < spec_containers(s).items.len() implies (
        #[trigger] spec_containers(s).items[i]).drawn_from(s) by {
            if i > 0 {
                assert(spec_containers(s).items[i] == more[i - 1]);
                lemma_container_of_tail(more[i - 1], s2, s);
            }
        }
    }
}

/// Every text of a parsed document is a piece of the input, but for the path
/// of the default shell.
pub proof fn law_document_drawn_from_input(s: Seq<u8>)
    ensures
        spec_parse(s) matches Ok(document) ==> document.drawn_from(s),
{
    if let Ok(document) = spec_parse(s) {
        lemma_shell_block(s);
        let body = spec_shell_block(s)->Ok_0.0;
        if shell_header().is_prefix_of(s) {
            lemma_shell_drawn(s);
        }
        lemma_containers_drawn(body);
        let blocks = spec_containers(body).items;
        assert forall|name: Seq<u8>| document.containers.contains_key(name) implies (
        #[trigger] document.containers[name]).drawn_from(s) by {
            lemma_map_values(blocks, name);
            let i = choose|i: int|
                0 <= i < blocks.len() && #[trigger] blocks[i] == containers_map(blocks)[name];
            lemma_container_of_tail(blocks[i], body, s);
        }
    }
}

} // verus!
