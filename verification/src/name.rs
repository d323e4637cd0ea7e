//! The name in a container header.
use vstd::prelude::*;
use crate::error::{fail, lemma_tail_trans, outcome, within, Expected, ParseError, Parsed};
use crate::primitives::{group_primitives, spec_tag, spec_take_until_colon, tag, take_until_colon};
use crate::text::{all_in_class, all_of_class, CharClass};

verus! {

/// The literal `:`.
pub open spec fn colon() -> Seq<u8> {
    seq![':' as u8]
}

/// A container name and the `:` after it. The name is the text before the
/// first `:`; it holds only ASCII letters, digits, `_` and `-`, and may be
/// empty.
pub open spec fn spec_container_name(s: Seq<u8>) -> Parsed<Seq<u8>> {
    match spec_take_until_colon(s) {
        Err(e) => Err(e),
        Ok((s1, name)) => if all_in_class(name, CharClass::Name) {
            match spec_tag(s1, colon(), Expected::Colon) {
                Err(e) => Err(e),
                Ok((s2, _)) => Ok((s2, name)),
            }
        } else {
            fail(s, Expected::Name)
        },
    }
}

/// A name stays within the input and, where it succeeds, takes at least the
/// `:`.
pub proof fn lemma_container_name(s: Seq<u8>)
    ensures
        within(spec_container_name(s), s),
        spec_container_name(s) matches Ok((rest, name)) ==> rest.len() < s.len() && all_in_class(
            name,
            CharClass::Name,
        ),
{
    broadcast use {group_primitives, lemma_tail_trans};

    assert(s =~= s.skip(0));
}

/// Parses a container name and the `:` that ends it.
pub fn container_name<'a>(input: &'a [u8]) -> (r: Result<(&'a [u8], &'a [u8]), ParseError<'a>>)
    ensures
        outcome(r) == spec_container_name(input@),
{
    let (rest, name) = take_until_colon(input)?;
    if !all_of_class(name, CharClass::Name) {
        return Err(ParseError::new(input, Expected::Name));
    }
    let separator: [u8; 1] = [':' as u8];
    assert(separator@ =~= colon());
    let (rest, _) = tag(rest, &separator, Expected::Colon)?;
    Ok((rest, name))
}

} // verus!
