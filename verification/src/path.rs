//! The path grammar, shared by every directive whose value is a path.
use vstd::prelude::*;
use crate::error::{outcome, Expected, ParseError, Parsed};
use crate::text::{is_path_char, path_allowed, spec_run, take_run, CharClass};

verus! {

/// A path value: one or more path characters, up to the first byte that is
/// none.
pub open spec fn spec_parse_path(s: Seq<u8>) -> Parsed<Seq<u8>> {
    spec_run(s, CharClass::Path, Expected::Path)
}

/// The grammar of paths, for the types whose values hold one.
pub trait PathLike {
    /// Whether `chr` may stand in a path: a letter, a digit, `/`, `_` or `-`.
    fn is_allowed(chr: char) -> (r: bool)
        ensures
            r == path_allowed(chr),
    {
        is_path_char(chr)
    }

    /// Takes the longest run of path characters at the start of `input`.
    /// Fails if `input` is empty or its first byte is no path character.
    fn parse_path<'a>(input: &'a [u8]) -> (r: Result<(&'a [u8], &'a [u8]), ParseError<'a>>)
        ensures
            outcome(r) == spec_parse_path(input@),
    {
        take_run(input, CharClass::Path, Expected::Path)
    }
}

} // verus!
