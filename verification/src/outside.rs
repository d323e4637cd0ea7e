//! The calls that leave the verified code.
//!
//! The letters and digits of ASCII are told apart by
//! `nom::character::is_alphanumeric`, those beyond ASCII by
//! `char::is_alphanumeric`; runs of bytes and line endings are cut off the
//! input by nom. The contracts in this module are not proved: each
//! says what the source or the documentation of the function shows.
use vstd::prelude::*;
use nom::InputTakeAtPosition;
use crate::primitives::newline_len;
use crate::text::{ascii_alphanumeric, ends_run, run_len, CharClass};

verus! {

/// What `char::is_alphanumeric` returns for `c`.
pub uninterp spec fn unicode_alphanumeric(c: char) -> bool;

/// `char::is_alphanumeric`. Which characters are letters or digits is a
/// matter of the Unicode tables; the contract only names the result.
#[verifier::external_body]
pub(crate) fn char_is_alphanumeric(chr: char) -> (r: bool)
    ensures
        r == unicode_alphanumeric(chr),
{
    chr.is_alphanumeric()
}

/// `nom::character::is_alphanumeric` tests a byte for an ASCII letter or
/// digit: `A-Z`, `a-z`, `0-9`.
pub assume_specification[ nom::character::is_alphanumeric ](chr: u8) -> (r: bool)
    ensures
        r == ascii_alphanumeric(chr),
;

/// `nom::InputTakeAtPosition::split_at_position1_complete` on a byte slice,
/// with [`ends_run`] as the predicate. It splits the input before the first
/// byte for which the predicate holds, or at the end of the input if there
/// is none, and fails if nothing stands before the split. The pair is
/// (rest, run).
#[verifier::external_body]
pub(crate) fn split_run<'a>(input: &'a [u8], class: CharClass) -> (r: Option<
    (&'a [u8], &'a [u8]),
>)
    ensures
        r is Some <==> run_len(input@, class) > 0,
        r matches Some((rest, run)) ==> run@ == input@.take(run_len(input@, class) as int)
            && rest@ == input@.skip(run_len(input@, class) as int),
{
    let split = input.split_at_position1_complete::<_, nom::error::Error<&[u8]>>(
        |b| ends_run(class, b),
        nom::error::ErrorKind::AlphaNumeric,
    );
    match split {
        Ok((rest, run)) => Some((rest, run)),
        Err(_) => None,
    }
}

/// `nom::character::complete::digit1` on a byte slice. It takes the longest
/// prefix of ASCII digits and fails if that is empty. The pair is
/// (rest, digits).
#[verifier::external_body]
pub(crate) fn split_digits<'a>(input: &'a [u8]) -> (r: Option<(&'a [u8], &'a [u8])>)
    ensures
        r is Some <==> run_len(input@, CharClass::Digit) > 0,
        r matches Some((rest, run)) ==> run@ == input@.take(
            run_len(input@, CharClass::Digit) as int,
        ) && rest@ == input@.skip(run_len(input@, CharClass::Digit) as int),
{
    match nom::character::complete::digit1::<&[u8], nom::error::Error<&[u8]>>(input) {
        Ok((rest, run)) => Some((rest, run)),
        Err(_) => None,
    }
}

/// `nom::character::complete::line_ending` on a byte slice. It matches `\n`
/// or `\r\n` at the start of the input and fails on anything else. The pair
/// is (rest, line ending).
#[verifier::external_body]
pub(crate) fn line_ending<'a>(input: &'a [u8]) -> (r: Option<(&'a [u8], &'a [u8])>)
    ensures
        r is Some <==> newline_len(input@) > 0,
        r matches Some((rest, ending)) ==> ending@ == input@.take(newline_len(input@) as int)
            && rest@ == input@.skip(newline_len(input@) as int),
{
    match nom::character::complete::line_ending::<&[u8], nom::error::Error<&[u8]>>(input) {
        Ok((rest, ending)) => Some((rest, ending)),
        Err(_) => None,
    }
}

} // verus!
