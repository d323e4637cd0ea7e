//! What holds of every input.
use vstd::prelude::*;
use crate::arguments::{
    expose_keyword, port_keyword, spec_argument, spec_parse_volume_name, volume_from_keyword,
    volume_keyword, ArgumentModel,
};
use crate::container::{
    lemma_arguments, spec_argument_line, spec_arguments, spec_block_end, spec_container,
    spec_container_head, ContainerModel,
};
use crate::containers::{containers_map, lemma_last_wins, lemma_map_names, lemma_map_values};
use crate::document::{
    lemma_containers, spec_containers, spec_document, spec_document_end, spec_parse,
    spec_shell_block, DocumentModel,
};
use crate::error::{fail, Expected, Failure};
use crate::manifest::{
    classify, dockerfile, lemma_manifest, spec_manifest, spec_parse_manifest, ManifestModel,
};
use crate::path::spec_parse_path;
use crate::primitives::{
    four_spaces, one_tab, spec_line_feed, spec_newline, spec_space, spec_tab,
    spec_take_until_colon,
};
use crate::shell::{default_shell_path, shell_header, spec_shell};
use crate::text::{all_in_class, spec_run, CharClass};

verus! {

/// A matcher that fails has consumed nothing: the failure stands at the
/// start of the input.
pub proof fn law_matchers_fail_in_place(s: Seq<u8>)
    ensures
        spec_space(s) matches Err(e) ==> e.remaining == s,
        spec_tab(s) matches Err(e) ==> e.remaining == s,
        spec_newline(s) matches Err(e) ==> e.remaining == s,
        spec_line_feed(s) matches Err(e) ==> e.remaining == s,
        spec_take_until_colon(s) matches Err(e) ==> e.remaining == s,
        spec_run(s, CharClass::Digit, Expected::Digits) matches Err(e) ==> e.remaining == s,
        spec_parse_path(s) matches Err(e) ==> e.remaining == s,
        spec_parse_manifest(s) matches Err(e) ==> e.remaining == s,
        spec_parse_volume_name(s) matches Err(e) ==> e.remaining == s,
{
}

/// Parsing is a function of the bytes alone: inputs that hold the same bytes
/// give the same document, or the same failure.
pub proof fn law_parse_is_a_function(a: Seq<u8>, b: Seq<u8>)
    requires
        a =~= b,
    ensures
        spec_parse(a) == spec_parse(b),
{
}

/// A text that begins with `Dockerfile` is classified as a build file, every
/// other text as an image, and either keeps the text.
pub proof fn law_classification(text: Seq<u8>)
    ensures
        dockerfile().is_prefix_of(text) ==> classify(text) == ManifestModel::File(text),
        !dockerfile().is_prefix_of(text) ==> classify(text) == ManifestModel::Image(text),
        classify(text).text() == text,
{
}

/// The manifest of a manifest line is a build file exactly when its text
/// begins with `Dockerfile`. The text is not empty and holds manifest
/// characters only.
pub proof fn law_manifest_line(s: Seq<u8>)
    ensures
        spec_manifest(s) matches Ok((_, manifest)) ==> {
            &&& manifest is File <==> dockerfile().is_prefix_of(manifest.text())
            &&& manifest.text().len() > 0
            &&& all_in_class(manifest.text(), CharClass::ManifestText)
        },
{
    lemma_manifest(s);
}

/// A container block whose argument lines hold two equal arguments fails. One
/// whose arguments differ pairwise keeps them all, in the order of their
/// lines.
pub proof fn law_distinct_arguments(s: Seq<u8>)
    ensures
        spec_container_head(s) matches Ok((body, _)) ==> {
            let lines = spec_arguments(body);
            &&& !lines.items.no_duplicates() ==> spec_container(s) == fail::<ContainerModel>(
                body,
                Expected::DistinctArguments,
            )
            &&& spec_container(s) matches Ok((_, container)) ==> container.arguments
                == lines.items && lines.items.no_duplicates()
        },
{
}

/// The keyword of a directive is none of the four that an argument line may
/// begin with.
pub open spec fn unknown_keyword(keyword: Seq<u8>) -> bool {
    &&& keyword != volume_keyword()
    &&& keyword != port_keyword()
    &&& keyword != expose_keyword()
    &&& keyword != volume_from_keyword()
}

/// An indented line is no end of a block.
pub proof fn lemma_indented_line_ends_no_block(s: Seq<u8>)
    requires
        spec_tab(s) is Ok,
    ensures
        spec_block_end(s) is None,
{
    assert(one_tab().is_prefix_of(s) || four_spaces().is_prefix_of(s));
    if one_tab().is_prefix_of(s) {
        assert(s[0] == s.subrange(0, 1)[0]);
    } else {
        assert(s[0] == s.subrange(0, 4)[0]);
    }
}

/// A container block fails if its argument lines are followed by an indented
/// line whose keyword is none of the four. The failure stands at the
/// keyword. A second manifest line is such a line.
pub proof fn law_unknown_keyword_fails(
    s: Seq<u8>,
    body: Seq<u8>,
    line: Seq<u8>,
    keyword: Seq<u8>,
)
    requires
        spec_container_head(s) matches Ok((after_head, _)) && after_head == body,
        spec_arguments(body).items.no_duplicates(),
        spec_tab(spec_arguments(body).rest) matches Ok((indented, _)) && indented == line,
        spec_take_until_colon(line) matches Ok((_, found)) && found == keyword,
        unknown_keyword(keyword),
    ensures
        spec_container(s) == fail::<ContainerModel>(line, Expected::Keyword),
{
    let lines = spec_arguments(body);
    lemma_arguments(body);
    lemma_indented_line_ends_no_block(lines.rest);
    assert(spec_argument_line(lines.rest) == spec_argument(line));
}

/// A document fails if its container blocks are followed by anything but the
/// end of the input, a line ending or NUL. The failure is that of the
/// container block attempted there.
pub proof fn law_failed_block_fails_document(s: Seq<u8>)
    ensures
        spec_shell_block(s) matches Ok((body, _)) ==> {
            let blocks = spec_containers(body);
            &&& spec_container(blocks.rest) == Err::<(Seq<u8>, ContainerModel), Failure>(
                blocks.stopped,
            )
            &&& spec_document_end(blocks.rest) is None ==> spec_document(s) == Err::<
                (Seq<u8>, DocumentModel),
                Failure,
            >(blocks.stopped)
        },
{
    if let Ok((body, _)) = spec_shell_block(s) {
        lemma_containers(body);
    }
}

/// The arguments of a block are read in the order of their lines: the
/// argument of the first line comes first.
pub proof fn law_source_order(s: Seq<u8>, first: ArgumentModel, after: Seq<u8>)
    requires
        spec_argument_line(s) == Ok::<(Seq<u8>, ArgumentModel), Failure>(
            (after, first),
        ),
    ensures
        spec_arguments(s).items == seq![first] + spec_arguments(after).items,
        spec_arguments(s).items[0] == first,
{
}

/// Of the containers that share a name, a document holds the last one, under
/// that name.
pub proof fn law_last_container_wins(blocks: Seq<ContainerModel>, last: int)
    requires
        0 <= last < blocks.len(),
        forall|later: int| last < later < blocks.len() ==> blocks[later].name != blocks[last].name,
    ensures
        containers_map(blocks).contains_key(blocks[last].name),
        containers_map(blocks)[blocks[last].name] == blocks[last],
{
    lemma_last_wins(blocks, last);
}

/// The container blocks of a document, in their order.
pub open spec fn document_blocks(s: Seq<u8>) -> Seq<ContainerModel> {
    match spec_shell_block(s) {
        Ok((body, _)) => spec_containers(body).items,
        Err(_) => Seq::empty(),
    }
}

/// A document holds a name exactly when one of its container blocks has it,
/// and it holds no more containers than it has blocks.
pub proof fn law_document_names(s: Seq<u8>, name: Seq<u8>)
    ensures
        spec_document(s) matches Ok((_, document)) ==> {
            let blocks = document_blocks(s);
            &&& document.containers == containers_map(blocks)
            &&& document.containers.contains_key(name) <==> exists|i: int|
                0 <= i < blocks.len() && #[trigger] blocks[i].name == name
            &&& document.containers.dom().finite()
            &&& document.containers.len() <= blocks.len()
        },
{
    if let Ok((_, document)) = spec_document(s) {
        let blocks = document_blocks(s);
        lemma_map_names(blocks, name);
    }
}

/// A document that does not begin with `@shell:` has the default shell. One
/// that does has the shell that its shell block declares.
pub proof fn law_shell_path(s: Seq<u8>)
    ensures
        spec_document(s) matches Ok((_, document)) ==> if shell_header().is_prefix_of(s) {
            spec_shell(s) matches Ok((_, declared)) && document.shell == declared
        } else {
            document.shell.path == default_shell_path()
        },
{
}

/// A parsed document is well formed: every container of it is, and stands
/// under its own name.
pub proof fn law_document_well_formed(s: Seq<u8>)
    ensures
        spec_parse(s) matches Ok(document) ==> document.wf(),
{
    if let Ok(document) = spec_parse(s) {
        let blocks = document_blocks(s);
        if let Ok((body, _)) = spec_shell_block(s) {
            lemma_containers(body);
        }
        lemma_map_names(blocks, Seq::empty());
        assert forall|name: Seq<u8>| document.containers.contains_key(name) implies (
        #[trigger] document.containers[name]).wf() && document.containers[name].name == name by {
            lemma_map_values(blocks, name);
        }
    }
}

} // verus!
