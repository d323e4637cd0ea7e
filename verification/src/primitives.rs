//! The smallest matchers: literals, indentation and line ends.
//!
//! Each consumes input and succeeds, or fails and leaves the input as it was.
use vstd::prelude::*;
use vstd::slice::slice_subrange;
use crate::error::{advances, fail, outcome, within, Expected, ParseError, Parsed};
use crate::outside::line_ending;
use crate::text::{lemma_run_len, lemma_run_len_is, run_len, CharClass};

verus! {

/// `literal` at the start of `s`, or the failure of `expected`.
pub open spec fn spec_tag(s: Seq<u8>, literal: Seq<u8>, expected: Expected) -> Parsed<Seq<u8>> {
    if literal.is_prefix_of(s) {
        Ok((s.skip(literal.len() as int), literal))
    } else {
        fail(s, expected)
    }
}

/// The byte string of one space.
pub open spec fn one_space() -> Seq<u8> {
    seq![' ' as u8]
}

/// The byte string of one tab.
pub open spec fn one_tab() -> Seq<u8> {
    seq!['\t' as u8]
}

/// The byte string of four spaces.
pub open spec fn four_spaces() -> Seq<u8> {
    seq![' ' as u8, ' ' as u8, ' ' as u8, ' ' as u8]
}

/// The byte string of one NUL.
pub open spec fn one_nul() -> Seq<u8> {
    seq![0u8]
}

/// One space.
pub open spec fn spec_space(s: Seq<u8>) -> Parsed<Seq<u8>> {
    spec_tag(s, one_space(), Expected::Space)
}

/// One level of indentation: a tab or, failing that, four spaces.
pub open spec fn spec_tab(s: Seq<u8>) -> Parsed<Seq<u8>> {
    match spec_tag(s, one_tab(), Expected::Indent) {
        Ok(found) => Ok(found),
        Err(_) => spec_tag(s, four_spaces(), Expected::Indent),
    }
}

/// The length of the line ending at the start of `s`: 1 for `\n`, 2 for
/// `\r\n`, 0 where there is neither.
pub open spec fn newline_len(s: Seq<u8>) -> nat {
    if s.len() >= 1 && s[0] == '\n' as u8 {
        1
    } else if s.len() >= 2 && s[0] == '\r' as u8 && s[1] == '\n' as u8 {
        2
    } else {
        0
    }
}

/// A line ending, `\n` or `\r\n`.
pub open spec fn spec_newline(s: Seq<u8>) -> Parsed<Seq<u8>> {
    let n = newline_len(s) as int;
    if n > 0 {
        Ok((s.skip(n), s.take(n)))
    } else {
        fail(s, Expected::Newline)
    }
}

/// The end of a value: a line ending or, failing that, one NUL byte.
pub open spec fn spec_line_feed(s: Seq<u8>) -> Parsed<Seq<u8>> {
    match spec_newline(s) {
        Ok(found) => Ok(found),
        Err(_) => spec_tag(s, one_nul(), Expected::LineEnd),
    }
}

/// The text before the first `:` of `s`. What is left begins with that `:`.
/// Fails if `s` holds no `:`.
pub open spec fn spec_take_until_colon(s: Seq<u8>) -> Parsed<Seq<u8>> {
    let n = run_len(s, CharClass::NotColon) as int;
    if n < s.len() {
        Ok((s.skip(n), s.take(n)))
    } else {
        fail(s, Expected::Colon)
    }
}

/// A literal is matched within the input, and one that is not empty
/// advances.
pub broadcast proof fn lemma_tag(s: Seq<u8>, literal: Seq<u8>, expected: Expected)
    ensures
        within(#[trigger] spec_tag(s, literal, expected), s),
        literal.len() > 0 ==> advances(spec_tag(s, literal, expected), s),
{
    assert(s =~= s.skip(0));
}

/// A space advances.
pub broadcast proof fn lemma_space(s: Seq<u8>)
    ensures
        advances(#[trigger] spec_space(s), s),
{
    lemma_tag(s, one_space(), Expected::Space);
}

/// Indentation advances.
pub broadcast proof fn lemma_tab(s: Seq<u8>)
    ensures
        advances(#[trigger] spec_tab(s), s),
{
    lemma_tag(s, one_tab(), Expected::Indent);
    lemma_tag(s, four_spaces(), Expected::Indent);
}

/// A line ending advances.
pub broadcast proof fn lemma_newline(s: Seq<u8>)
    ensures
        advances(#[trigger] spec_newline(s), s),
{
    assert(s =~= s.skip(0));
}

/// The end of a value advances.
pub broadcast proof fn lemma_line_feed(s: Seq<u8>)
    ensures
        advances(#[trigger] spec_line_feed(s), s),
{
    lemma_newline(s);
    lemma_tag(s, one_nul(), Expected::LineEnd);
}

/// Taking the text before a `:` stays within the input; what is left begins
/// with `:` and the text holds none.
pub broadcast proof fn lemma_take_until_colon(s: Seq<u8>)
    ensures
        within(#[trigger] spec_take_until_colon(s), s),
        spec_take_until_colon(s) matches Ok((rest, text)) ==> rest.len() > 0 && rest[0] == ':' as u8
            && text + rest == s,
{
    lemma_run_len(s, CharClass::NotColon);
    let n = run_len(s, CharClass::NotColon) as int;
    assert(s =~= s.skip(0));
    assert(s.take(n) + s.skip(n) =~= s);
}

/// Matches `literal` at the start of `input`.
pub fn tag<'a>(input: &'a [u8], literal: &[u8], expected: Expected) -> (r: Result<
    (&'a [u8], &'a [u8]),
    ParseError<'a>,
>)
    ensures
        outcome(r) == spec_tag(input@, literal@, expected),
{
    let n = literal.len();
    if n > input.len() {
        return Err(ParseError::new(input, expected));
    }
    let mut i: usize = 0;
    while i < n
        invariant
            n == literal@.len(),
            n <= input@.len(),
            i <= n,
            forall|k: int| 0 <= k < i ==> literal@[k] == input@[k],
        decreases n - i,
    {
        if literal[i] != input[i] {
            assert(input@.subrange(0, n as int)[i as int] != literal@[i as int]);
            return Err(ParseError::new(input, expected));
        }
        i += 1;
    }
    assert(literal@ =~= input@.subrange(0, n as int));
    Ok((slice_subrange(input, n, input.len()), slice_subrange(input, 0, n)))
}

/// Matches one space.
pub fn space<'a>(input: &'a [u8]) -> (r: Result<(&'a [u8], &'a [u8]), ParseError<'a>>)
    ensures
        outcome(r) == spec_space(input@),
{
    let literal: [u8; 1] = [' ' as u8];
    assert(literal@ =~= one_space());
    tag(input, &literal, Expected::Space)
}

/// Matches one level of indentation: one tab, or exactly four spaces.
pub fn tab<'a>(input: &'a [u8]) -> (r: Result<(&'a [u8], &'a [u8]), ParseError<'a>>)
    ensures
        outcome(r) == spec_tab(input@),
{
    let tab_literal: [u8; 1] = ['\t' as u8];
    assert(tab_literal@ =~= one_tab());
    match tag(input, &tab_literal, Expected::Indent) {
        Ok(found) => Ok(found),
        Err(_) => {
            let spaces: [u8; 4] = [' ' as u8, ' ' as u8, ' ' as u8, ' ' as u8];
            assert(spaces@ =~= four_spaces());
            tag(input, &spaces, Expected::Indent)
        },
    }
}

/// Matches a line ending, `\n` or `\r\n`.
pub fn newline<'a>(input: &'a [u8]) -> (r: Result<(&'a [u8], &'a [u8]), ParseError<'a>>)
    ensures
        outcome(r) == spec_newline(input@),
{
    match line_ending(input) {
        Some(found) => Ok(found),
        None => Err(ParseError::new(input, Expected::Newline)),
    }
}

/// Matches the end of a value: a line ending or a single NUL byte.
pub fn line_feed<'a>(input: &'a [u8]) -> (r: Result<(&'a [u8], &'a [u8]), ParseError<'a>>)
    ensures
        outcome(r) == spec_line_feed(input@),
{
    match newline(input) {
        Ok(found) => Ok(found),
        Err(_) => {
            let nul: [u8; 1] = [0u8];
            assert(nul@ =~= one_nul());
            tag(input, &nul, Expected::LineEnd)
        },
    }
}

/// Takes the text before the first `:`; fails if there is no `:`.
pub fn take_until_colon<'a>(input: &'a [u8]) -> (r: Result<(&'a [u8], &'a [u8]), ParseError<'a>>)
    ensures
        outcome(r) == spec_take_until_colon(input@),
{
    let mut i: usize = 0;
    while i < input.len() && input[i] != ':' as u8
        invariant
            i <= input@.len(),
            forall|k: int| 0 <= k < i ==> input@[k] != ':' as u8,
        decreases input@.len() - i,
    {
        i += 1;
    }
    proof {
        lemma_run_len_is(input@, CharClass::NotColon, i as int);
    }
    if i < input.len() {
        Ok((slice_subrange(input, i, input.len()), slice_subrange(input, 0, i)))
    } else {
        Err(ParseError::new(input, Expected::Colon))
    }
}

/// What holds of the matchers of this module.
pub broadcast group group_primitives {
    lemma_tag,
    lemma_space,
    lemma_tab,
    lemma_newline,
    lemma_line_feed,
    lemma_take_until_colon,
}

} // verus!
