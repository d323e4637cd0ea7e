//! The document: an optional shell block and the container blocks.
use vstd::prelude::*;
use crate::container::{container, lemma_container, spec_container, ContainerModel};
use crate::containers::{containers_map, Containers};
use crate::error::{
    is_tail, lemma_tail_trans, lemma_within_tail, outcome, within, Failure, ParseError, Parsed,
};
use crate::laws::law_document_well_formed;
use crate::pieces::law_document_drawn_from_input;
use crate::primitives::{
    lemma_line_feed, lemma_newline, line_feed, newline, spec_line_feed, spec_newline,
};
use crate::shell::{
    default_shell_path, lemma_shell, shell, shell_header, spec_shell, Shell, ShellModel,
};
use crate::text::starts_with;

verus! {

/// A document, as a mathematical value.
pub struct DocumentModel {
    pub shell: ShellModel,
    pub containers: Map<Seq<u8>, ContainerModel>,
}

impl DocumentModel {
    /// The document is one that an input can hold: it has finitely many
    /// containers, each well formed and each under its own name.
    pub open spec fn wf(self) -> bool {
        &&& self.containers.dom().finite()
        &&& forall|name: Seq<u8>|
            self.containers.contains_key(name) ==> (#[trigger] self.containers[name]).wf()
                && self.containers[name].name == name
    }
}

/// What is left of `s` after the line endings at its start.
pub open spec fn spec_blank_lines(s: Seq<u8>) -> Seq<u8>
    decreases s.len(),
{
    match spec_newline(s) {
        Err(_) => s,
        Ok((s1, _)) => {
            proof {
                lemma_newline(s);
            }
            spec_blank_lines(s1)
        },
    }
}

/// Skipping blank lines leaves a tail that begins with no line ending.
pub proof fn lemma_blank_lines(s: Seq<u8>)
    ensures
        is_tail(spec_blank_lines(s), s),
        spec_newline(spec_blank_lines(s)) is Err,
    decreases s.len(),
{
    lemma_newline(s);
    match spec_newline(s) {
        Err(_) => {
            assert(s =~= s.skip(0));
        },
        Ok((s1, _)) => {
            lemma_blank_lines(s1);
            lemma_tail_trans(spec_blank_lines(s1), s1, s);
        },
    }
}

/// The container blocks at the start of an input.
pub struct ContainerBlocks {
    /// The containers, in the order of their blocks.
    pub items: Seq<ContainerModel>,
    /// The input from the first place on where no container block stands.
    pub rest: Seq<u8>,
    /// Why no container block stands there.
    pub stopped: Failure,
}

/// Reads container blocks, and the blank lines after each, for as long as
/// there are any.
pub open spec fn spec_containers(s: Seq<u8>) -> ContainerBlocks
    decreases s.len(),
{
    match spec_container(s) {
        Err(e) => ContainerBlocks { items: Seq::empty(), rest: s, stopped: e },
        Ok((s1, first)) => {
            proof {
                lemma_container(s);
                lemma_blank_lines(s1);
            }
            let more = spec_containers(spec_blank_lines(s1));
            ContainerBlocks {
                items: seq![first] + more.items,
                rest: more.rest,
                stopped: more.stopped,
            }
        },
    }
}

/// The blocks stop inside the input, where no container block stands, and
/// the failure reported is that of the block attempted there. Every
/// container is well formed.
pub proof fn lemma_containers(s: Seq<u8>)
    ensures
        forall|i: int|
            0 <= i < spec_containers(s).items.len() ==> (#[trigger] spec_containers(
                s,
            ).items[i]).wf(),
        is_tail(spec_containers(s).rest, s),
        is_tail(spec_containers(s).stopped.remaining, s),
        spec_container(spec_containers(s).rest) == Err::<(Seq<u8>, ContainerModel), Failure>(
            spec_containers(s).stopped,
        ),
    decreases s.len(),
{
    lemma_container(s);
    match spec_container(s) {
        Err(e) => {
            assert(s =~= s.skip(0));
        },
        Ok((s1, first)) => {
            let s2 = spec_blank_lines(s1);
            lemma_blank_lines(s1);
            lemma_tail_trans(s2, s1, s);
            lemma_containers(s2);
            lemma_tail_trans(spec_containers(s2).rest, s2, s);
            lemma_tail_trans(spec_containers(s2).stopped.remaining, s2, s);
        },
    }
}

/// The shell of a document. An input that begins with `@shell:` must hold a
/// whole shell block, and the blank lines after it are skipped. Any other
/// input has the default shell and nothing is consumed.
pub open spec fn spec_shell_block(s: Seq<u8>) -> Parsed<ShellModel> {
    if shell_header().is_prefix_of(s) {
        match spec_shell(s) {
            Err(e) => Err(e),
            Ok((s1, shell)) => Ok((spec_blank_lines(s1), shell)),
        }
    } else {
        Ok((s, ShellModel { path: default_shell_path() }))
    }
}

/// The end of a document: the end of the input, or a line ending or NUL,
/// which is consumed.
pub open spec fn spec_document_end(s: Seq<u8>) -> Option<Seq<u8>> {
    if s.len() == 0 {
        Some(s)
    } else {
        match spec_line_feed(s) {
            Ok((rest, _)) => Some(rest),
            Err(_) => None,
        }
    }
}

/// The document: the shell block or none, then the container blocks, each
/// followed by any number of blank lines, then the end of the input or a
/// line ending or NUL. Where none of these follows, the document fails with
/// the failure of the container block that was attempted last. What follows
/// the closing line ending or NUL is not read.
pub open spec fn spec_document(s: Seq<u8>) -> Parsed<DocumentModel> {
    match spec_shell_block(s) {
        Err(e) => Err(e),
        Ok((s1, shell)) => {
            let blocks = spec_containers(s1);
            match spec_document_end(blocks.rest) {
                Some(s2) => Ok(
                    (s2, DocumentModel { shell, containers: containers_map(blocks.items) }),
                ),
                None => Err(blocks.stopped),
            }
        },
    }
}

/// The document that `s` holds, or why it holds none.
pub open spec fn spec_parse(s: Seq<u8>) -> Result<DocumentModel, Failure> {
    match spec_document(s) {
        Ok((_, document)) => Ok(document),
        Err(e) => Err(e),
    }
}

/// The shell of a document is read within the input.
pub proof fn lemma_shell_block(s: Seq<u8>)
    ensures
        within(spec_shell_block(s), s),
{
    if shell_header().is_prefix_of(s) {
        lemma_shell(s);
        if let Ok((after, _)) = spec_shell(s) {
            lemma_blank_lines(after);
            lemma_tail_trans(spec_blank_lines(after), after, s);
        }
    } else {
        assert(s =~= s.skip(0));
    }
}

/// Whatever a document parse leaves, as rest or as the place of a failure,
/// is a tail of its input.
pub proof fn lemma_document(s: Seq<u8>)
    ensures
        within(spec_document(s), s),
{
    lemma_shell_block(s);
    if let Ok((body, _)) = spec_shell_block(s) {
        let blocks = spec_containers(body);
        lemma_containers(body);
        lemma_tail_trans(blocks.rest, body, s);
        lemma_tail_trans(blocks.stopped.remaining, body, s);
        if blocks.rest.len() > 0 {
            lemma_line_feed(blocks.rest);
            lemma_within_tail(spec_line_feed(blocks.rest), blocks.rest, s);
        }
    }
}

/// A parsed document.
#[derive(Debug)]
pub struct Parser<'a> {
    shell: Shell<'a>,
    containers: Containers<'a>,
}

impl<'a> View for Parser<'a> {
    type V = DocumentModel;

    closed spec fn view(&self) -> DocumentModel {
        DocumentModel { shell: self.shell@, containers: self.containers@ }
    }
}

impl<'a> Parser<'a> {
    /// Parses a whole document. The text fields of the result borrow from
    /// `input`, and so does the place of a failure.
    pub fn parse(input: &'a [u8]) -> (r: Result<Self, ParseError<'a>>)
        ensures
            match r {
                Ok(document) => spec_parse(input@) == Ok::<DocumentModel, Failure>(document@)
                    && document@.wf() && document@.drawn_from(input@),
                Err(e) => spec_parse(input@) == Err::<DocumentModel, Failure>(e@) && is_tail(
                    e@.remaining,
                    input@,
                ),
            },
    {
        proof {
            lemma_document(input@);
            law_document_well_formed(input@);
            law_document_drawn_from_input(input@);
        }
        match document(input) {
            Ok((_, parsed)) => Ok(parsed),
            Err(e) => Err(e),
        }
    }

    /// The shell of the document.
    pub fn shell(&self) -> (shell: &Shell<'a>)
        ensures
            shell@ == self@.shell,
    {
        &self.shell
    }

    /// The containers of the document, by name.
    pub fn containers(&self) -> (containers: &Containers<'a>)
        ensures
            containers@ == self@.containers,
    {
        &self.containers
    }
}

/// Skips the line endings at the start of `input`.
pub fn blank_lines<'a>(input: &'a [u8]) -> (rest: &'a [u8])
    ensures
        rest@ == spec_blank_lines(input@),
{
    let mut rest = input;
    loop
        invariant
            spec_blank_lines(input@) == spec_blank_lines(rest@),
        decreases rest@.len(),
    {
        match newline(rest) {
            Ok((next, _)) => {
                proof {
                    lemma_newline(rest@);
                }
                rest = next;
            },
            Err(_) => {
                return rest;
            },
        }
    }
}

/// Parses the shell block of a document if `input` begins with `@shell:`,
/// and gives the default shell if it does not.
pub fn shell_block<'a>(input: &'a [u8]) -> (r: Result<(&'a [u8], Shell<'a>), ParseError<'a>>)
    ensures
        outcome(r) == spec_shell_block(input@),
{
    let header: [u8; 7] = ['@' as u8, 's' as u8, 'h' as u8, 'e' as u8, 'l' as u8, 'l' as u8, ':' as u8];
    assert(header@ =~= shell_header());
    if starts_with(input, &header) {
        let (rest, found) = shell(input)?;
        Ok((blank_lines(rest), found))
    } else {
        Ok((input, Shell::default()))
    }
}

/// Parses container blocks, and the blank lines after each, for as long as
/// there are any. Returns the containers by name, the input from the first
/// place on where no container block stands, and the reason why none stands
/// there.
pub fn containers<'a>(input: &'a [u8]) -> (r: (Containers<'a>, &'a [u8], ParseError<'a>))
    ensures
        r.0@ == containers_map(spec_containers(input@).items),
        r.1@ == spec_containers(input@).rest,
        r.2@ == spec_containers(input@).stopped,
{
    let mut found = Containers::new();
    let mut rest = input;
    let ghost mut read: Seq<ContainerModel> = Seq::empty();
    loop
        invariant
            found@ == containers_map(read),
            spec_containers(input@).items == read + spec_containers(rest@).items,
            spec_containers(input@).rest == spec_containers(rest@).rest,
            spec_containers(input@).stopped == spec_containers(rest@).stopped,
        decreases rest@.len(),
    {
        match container(rest) {
            Ok((next, block)) => {
                let after = blank_lines(next);
                proof {
                    lemma_container(rest@);
                    lemma_blank_lines(next@);
                    assert(read.push(block@).drop_last() =~= read);
                    assert((read + seq![block@]) + spec_containers(after@).items =~= read + (
                    seq![block@] + spec_containers(after@).items));
                    assert(read.push(block@) =~= read + seq![block@]);
                    read = read.push(block@);
                }
                found.insert(block);
                rest = after;
            },
            Err(stopped) => {
                assert(read + Seq::<ContainerModel>::empty() =~= read);
                return (found, rest, stopped);
            },
        }
    }
}

/// Matches the end of a document: the end of the input, or a line ending or
/// NUL.
pub fn document_end<'a>(input: &'a [u8]) -> (r: Option<&'a [u8]>)
    ensures
        r matches Some(rest) ==> spec_document_end(input@) == Some(rest@),
        r is None ==> spec_document_end(input@) is None,
{
    if input.len() == 0 {
        Some(input)
    } else {
        match line_feed(input) {
            Ok((rest, _)) => Some(rest),
            Err(_) => None,
        }
    }
}

/// Parses the document at the start of `input`. Returns what follows the
/// document with it.
pub fn document<'a>(input: &'a [u8]) -> (r: Result<(&'a [u8], Parser<'a>), ParseError<'a>>)
    ensures
        outcome(r) == spec_document(input@),
{
    let (rest, shell) = shell_block(input)?;
    let (containers, rest, stopped) = containers(rest);
    match document_end(rest) {
        Some(rest) => Ok((rest, Parser { shell, containers })),
        None => Err(stopped),
    }
}

} // verus!
