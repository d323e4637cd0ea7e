//! A container block: a name, one manifest and the arguments.
use vstd::prelude::*;
use crate::arguments::{argument, lemma_argument, spec_argument, Argument, ArgumentModel};
use crate::error::{
    advances, fail, is_tail, lemma_tail_trans, lemma_within_tail, outcome, Expected, Failure,
    ParseError, Parsed,
};
use crate::manifest::{lemma_manifest, manifest, spec_manifest, Manifest, ManifestModel};
use crate::name::{container_name, lemma_container_name, spec_container_name};
use crate::primitives::{
    group_primitives, lemma_line_feed, lemma_newline, lemma_tab, lemma_tag, line_feed, newline,
    spec_line_feed, spec_newline, spec_tab, spec_tag, tab, tag,
};
use crate::text::{all_in_class, CharClass};

verus! {

/// The literal `@`.
pub open spec fn at_sign() -> Seq<u8> {
    seq!['@' as u8]
}

/// A container, as a mathematical value.
pub struct ContainerModel {
    pub name: Seq<u8>,
    pub manifest: ManifestModel,
    pub arguments: Seq<ArgumentModel>,
}

impl ContainerModel {
    /// The container is one that a container block can hold: its name holds
    /// name characters only, its manifest and its arguments are well formed,
    /// and no two arguments are equal.
    pub open spec fn wf(self) -> bool {
        &&& all_in_class(self.name, CharClass::Name)
        &&& self.manifest.wf()
        &&& forall|i: int| 0 <= i < self.arguments.len() ==> (#[trigger] self.arguments[i]).wf()
        &&& self.arguments.no_duplicates()
    }
}

/// The mathematical values of a sequence of arguments, in the same order.
pub open spec fn models<'a>(arguments: Seq<Argument<'a>>) -> Seq<ArgumentModel> {
    arguments.map_values(|a: Argument<'a>| a@)
}

/// A named container: what it is made from and the arguments it is run
/// with. No two of its arguments are equal.
#[derive(Debug)]
pub struct Container<'a> {
    name: &'a [u8],
    manifest: Manifest<'a>,
    arguments: Vec<Argument<'a>>,
}

impl<'a> View for Container<'a> {
    type V = ContainerModel;

    closed spec fn view(&self) -> ContainerModel {
        ContainerModel {
            name: self.name@,
            manifest: self.manifest@,
            arguments: models(self.arguments@),
        }
    }
}

/// One argument line: indentation, then the argument.
pub open spec fn spec_argument_line(s: Seq<u8>) -> Parsed<ArgumentModel> {
    match spec_tab(s) {
        Err(e) => Err(e),
        Ok((s1, _)) => spec_argument(s1),
    }
}

/// An argument line advances, and its argument is well formed.
pub proof fn lemma_argument_line(s: Seq<u8>)
    ensures
        advances(spec_argument_line(s), s),
        spec_argument_line(s) matches Ok((_, argument)) ==> argument.wf(),
{
    broadcast use {group_primitives, lemma_tail_trans, lemma_argument};

}

/// The argument lines at the start of an input.
pub struct ArgumentLines {
    /// The arguments, in the order of their lines.
    pub items: Seq<ArgumentModel>,
    /// The input from the first line on that is no argument line.
    pub rest: Seq<u8>,
    /// Why that line is no argument line.
    pub stopped: Failure,
}

/// Reads argument lines for as long as there are any.
pub open spec fn spec_arguments(s: Seq<u8>) -> ArgumentLines
    decreases s.len(),
{
    match spec_argument_line(s) {
        Err(e) => ArgumentLines { items: Seq::empty(), rest: s, stopped: e },
        Ok((s1, first)) => {
            proof {
                lemma_argument_line(s);
            }
            let more = spec_arguments(s1);
            ArgumentLines { items: seq![first] + more.items, rest: more.rest, stopped: more.stopped }
        },
    }
}

/// The lines stop inside the input, at a line that is no argument line, and
/// the failure reported is that line's. Every argument is well formed.
pub proof fn lemma_arguments(s: Seq<u8>)
    ensures
        forall|i: int|
            0 <= i < spec_arguments(s).items.len() ==> (#[trigger] spec_arguments(s).items[i]).wf(),
        is_tail(spec_arguments(s).rest, s),
        is_tail(spec_arguments(s).stopped.remaining, s),
        spec_argument_line(spec_arguments(s).rest) == Err::<(Seq<u8>, ArgumentModel), Failure>(
            spec_arguments(s).stopped,
        ),
    decreases s.len(),
{
    broadcast use lemma_tail_trans;

    lemma_argument_line(s);
    match spec_argument_line(s) {
        Err(e) => {
            assert(s =~= s.skip(0));
        },
        Ok((s1, first)) => {
            lemma_arguments(s1);
        },
    }
}

/// The end of a block: the end of the input, or a blank line, whose line
/// ending is consumed.
pub open spec fn spec_block_end(s: Seq<u8>) -> Option<Seq<u8>> {
    if s.len() == 0 {
        Some(s)
    } else {
        match spec_newline(s) {
            Ok((rest, _)) => Some(rest),
            Err(_) => None,
        }
    }
}

/// The two lines that every container block begins with: the header
/// `@<name>:`, ended by a line ending or NUL, and the indented manifest line.
/// Yields the name and the manifest.
pub open spec fn spec_container_head(s: Seq<u8>) -> Parsed<(Seq<u8>, ManifestModel)> {
    match spec_tag(s, at_sign(), Expected::At) {
        Err(e) => Err(e),
        Ok((s1, _)) => match spec_container_name(s1) {
            Err(e) => Err(e),
            Ok((s2, name)) => match spec_line_feed(s2) {
                Err(e) => Err(e),
                Ok((s3, _)) => match spec_tab(s3) {
                    Err(e) => Err(e),
                    Ok((s4, _)) => match spec_manifest(s4) {
                        Err(e) => Err(e),
                        Ok((s5, manifest)) => Ok((s5, (name, manifest))),
                    },
                },
            },
        },
    }
}

/// The container block:
///
/// ```text
/// @<name>:
///     from: <manifest text>
///     <argument>
///     <argument>
/// ```
///
/// After the head the argument lines are read for as long as there are any.
/// A block with two equal arguments fails, and the failure stands at the
/// first argument line. After the argument lines the input ends or a blank
/// line follows; where neither is the case the block fails with the failure
/// of the line that was no argument line.
pub open spec fn spec_container(s: Seq<u8>) -> Parsed<ContainerModel> {
    match spec_container_head(s) {
        Err(e) => Err(e),
        Ok((body, (name, manifest))) => {
            let lines = spec_arguments(body);
            if !lines.items.no_duplicates() {
                fail(body, Expected::DistinctArguments)
            } else {
                match spec_block_end(lines.rest) {
                    Some(rest) => Ok(
                        (rest, ContainerModel { name, manifest, arguments: lines.items }),
                    ),
                    None => Err(lines.stopped),
                }
            }
        },
    }
}

/// The head of a container block advances, its name holds name characters
/// only and its manifest is well formed.
pub proof fn lemma_container_head(s: Seq<u8>)
    ensures
        advances(spec_container_head(s), s),
        spec_container_head(s) matches Ok((_, head)) ==> all_in_class(head.0, CharClass::Name)
            && head.1.wf(),
{
    lemma_tag(s, at_sign(), Expected::At);
    if let Ok((s1, _)) = spec_tag(s, at_sign(), Expected::At) {
        lemma_container_name(s1);
        lemma_within_tail(spec_container_name(s1), s1, s);
        if let Ok((s2, name)) = spec_container_name(s1) {
            lemma_line_feed(s2);
            lemma_within_tail(spec_line_feed(s2), s2, s);
            if let Ok((s3, _)) = spec_line_feed(s2) {
                lemma_tab(s3);
                lemma_within_tail(spec_tab(s3), s3, s);
                if let Ok((s4, _)) = spec_tab(s3) {
                    lemma_manifest(s4);
                    lemma_within_tail(spec_manifest(s4), s4, s);
                }
            }
        }
    }
}

/// A container block advances, and its container is well formed.
pub proof fn lemma_container(s: Seq<u8>)
    ensures
        advances(spec_container(s), s),
        spec_container(s) matches Ok((_, container)) ==> container.wf(),
{
    lemma_container_head(s);
    if let Ok((body, _)) = spec_container_head(s) {
        let lines = spec_arguments(body);
        lemma_arguments(body);
        lemma_tail_trans(lines.rest, body, s);
        lemma_tail_trans(lines.stopped.remaining, body, s);
        if lines.rest.len() > 0 {
            lemma_newline(lines.rest);
            lemma_within_tail(spec_newline(lines.rest), lines.rest, s);
        }
    }
}

impl<'a> Container<'a> {
    #[verifier::type_invariant]
    spec fn well_formed(self) -> bool {
        self@.wf()
    }

    /// The name of the container: ASCII letters, digits, `_` and `-`.
    pub fn name(&self) -> (name: &'a [u8])
        ensures
            name@ == self@.name,
            self@.wf(),
    {
        proof {
            use_type_invariant(self);
        }
        self.name
    }

    /// What the container is made from.
    pub fn manifest(&self) -> (manifest: Manifest<'a>)
        ensures
            manifest@ == self@.manifest,
            self@.wf(),
    {
        proof {
            use_type_invariant(self);
        }
        self.manifest
    }

    /// The arguments of the container, in the order in which they were
    /// written. No two of them are equal.
    pub fn arguments(&self) -> (arguments: &Vec<Argument<'a>>)
        ensures
            models(arguments@) == self@.arguments,
            self@.wf(),
    {
        proof {
            use_type_invariant(self);
        }
        &self.arguments
    }

    /// Whether no two of `arguments` are equal.
    pub fn verify_arguments(arguments: &[Argument<'a>]) -> (r: bool)
        ensures
            r == models(arguments@).no_duplicates(),
    {
        let ghost all = models(arguments@);
        let mut i: usize = 0;
        while i < arguments.len()
            invariant
                all == models(arguments@),
                i <= arguments@.len(),
                forall|p: int, q: int| 0 <= p < q < i ==> all[p] != all[q],
            decreases arguments@.len() - i,
        {
            let mut j: usize = 0;
            while j < i
                invariant
                    all == models(arguments@),
                    i < arguments@.len(),
                    j <= i,
                    forall|p: int| 0 <= p < j ==> all[p] != all[i as int],
                decreases i - j,
            {
                if arguments[j].eq(&arguments[i]) {
                    assert(all[j as int] == all[i as int]);
                    return false;
                }
                j += 1;
            }
            i += 1;
        }
        assert forall|p: int, q: int| 0 <= p < all.len() && 0 <= q < all.len() && p != q implies all[p]
            != all[q] by {
            if p < q {
                assert(all[p] != all[q]);
            } else {
                assert(all[q] != all[p]);
            }
        }
        true
    }
}

/// Parses one argument line: indentation, then the argument.
pub fn argument_line<'a>(input: &'a [u8]) -> (r: Result<(&'a [u8], Argument<'a>), ParseError<'a>>)
    ensures
        outcome(r) == spec_argument_line(input@),
{
    let (rest, _) = tab(input)?;
    argument(rest)
}

/// Parses argument lines for as long as there are any. Returns the
/// arguments, the input from the first line on that is no argument line, and
/// the reason why that line is none.
pub fn arguments<'a>(input: &'a [u8]) -> (r: (Vec<Argument<'a>>, &'a [u8], ParseError<'a>))
    ensures
        models(r.0@) == spec_arguments(input@).items,
        r.1@ == spec_arguments(input@).rest,
        r.2@ == spec_arguments(input@).stopped,
{
    let mut found: Vec<Argument<'a>> = Vec::new();
    let mut rest = input;
    loop
        invariant
            spec_arguments(input@).items == models(found@) + spec_arguments(rest@).items,
            spec_arguments(input@).rest == spec_arguments(rest@).rest,
            spec_arguments(input@).stopped == spec_arguments(rest@).stopped,
        decreases rest@.len(),
    {
        match argument_line(rest) {
            Ok((next, argument)) => {
                proof {
                    lemma_argument_line(rest@);
                    assert(models(found@.push(argument)) =~= models(found@) + seq![argument@]);
                    assert((models(found@) + seq![argument@]) + spec_arguments(next@).items
                        =~= models(found@) + (seq![argument@] + spec_arguments(next@).items));
                }
                found.push(argument);
                rest = next;
            },
            Err(stopped) => {
                assert(models(found@) + Seq::<ArgumentModel>::empty() =~= models(found@));
                return (found, rest, stopped);
            },
        }
    }
}

/// Matches the end of a block: the end of the input, or a blank line.
pub fn block_end<'a>(input: &'a [u8]) -> (r: Option<&'a [u8]>)
    ensures
        r matches Some(rest) ==> spec_block_end(input@) == Some(rest@),
        r is None ==> spec_block_end(input@) is None,
{
    if input.len() == 0 {
        Some(input)
    } else {
        match newline(input) {
            Ok((rest, _)) => Some(rest),
            Err(_) => None,
        }
    }
}

/// Parses the head of a container block: the header line and the manifest
/// line. Returns the name and the manifest.
pub fn container_head<'a>(input: &'a [u8]) -> (r: Result<
    (&'a [u8], (&'a [u8], Manifest<'a>)),
    ParseError<'a>,
>)
    ensures
        outcome(r) == spec_container_head(input@),
{
    let at: [u8; 1] = ['@' as u8];
    assert(at@ =~= at_sign());
    let (rest, _) = tag(input, &at, Expected::At)?;
    let (rest, name) = container_name(rest)?;
    let (rest, _) = line_feed(rest)?;
    let (rest, _) = tab(rest)?;
    let (rest, manifest) = manifest(rest)?;
    Ok((rest, (name, manifest)))
}

/// Parses the container block at the start of `input`.
pub fn container<'a>(input: &'a [u8]) -> (r: Result<(&'a [u8], Container<'a>), ParseError<'a>>)
    ensures
        outcome(r) == spec_container(input@),
{
    let (body, (name, manifest)) = container_head(input)?;
    let (arguments, rest, stopped) = arguments(body);
    proof {
        lemma_container(input@);
    }
    if !Container::verify_arguments(arguments.as_slice()) {
        return Err(ParseError::new(body, Expected::DistinctArguments));
    }
    match block_end(rest) {
        Some(rest) => Ok((rest, Container { name, manifest, arguments })),
        None => Err(stopped),
    }
}

} // verus!
