//! Parse failures: where the input stopped matching and what was expected there.
use vstd::prelude::*;

verus! {

/// The grammar element that would have been accepted at the point of failure.
#[derive(Clone, Copy, Debug, PartialEq, Eq, Structural)]
pub enum Expected {
    /// The literal `@shell:`.
    ShellHeader,
    /// The `@` that opens a container header.
    At,
    /// A name: ASCII letters and digits, `_` and `-`.
    Name,
    /// A `:`.
    Colon,
    /// A line ending, `\n` or `\r\n`.
    Newline,
    /// One tab or four spaces.
    Indent,
    /// The literal `path:`.
    PathKey,
    /// The literal `from:`.
    FromKey,
    /// One space.
    Space,
    /// A path: letters, digits, `/`, `_` and `-`.
    Path,
    /// A manifest text: letters, digits, `:`, `_`, `/` and `.`.
    ManifestText,
    /// One of the keywords `volume`, `port`, `expose`, `volume-from`.
    Keyword,
    /// One or more decimal digits.
    Digits,
    /// A decimal number no greater than 65535.
    Port,
    /// The end of a value: a line ending or a NUL byte.
    LineEnd,
    /// Arguments that differ pairwise.
    DistinctArguments,
}

/// A failed parse, as a mathematical value: the input that was left when the
/// failure occurred and the element that was expected at its start.
pub struct Failure {
    pub remaining: Seq<u8>,
    pub expected: Expected,
}

/// A failed parse. `remaining` is the part of the input that starts where
/// the expected element was not found.
#[derive(Clone, Copy, Debug)]
pub struct ParseError<'a> {
    pub remaining: &'a [u8],
    pub expected: Expected,
}

impl<'a> View for ParseError<'a> {
    type V = Failure;

    open spec fn view(&self) -> Failure {
        Failure { remaining: self.remaining@, expected: self.expected }
    }
}

/// What a parser yields over byte sequences: the input left over and a value,
/// or a failure.
pub type Parsed<T> = Result<(Seq<u8>, T), Failure>;

/// The failure of `expected` at the start of `s`.
pub open spec fn fail<T>(s: Seq<u8>, expected: Expected) -> Parsed<T> {
    Err(Failure { remaining: s, expected })
}

/// The mathematical value of an executable parser's result.
pub open spec fn outcome<'a, T: View>(r: Result<(&'a [u8], T), ParseError<'a>>) -> Parsed<T::V> {
    match r {
        Ok((rest, value)) => Ok((rest@, value@)),
        Err(e) => Err(e@),
    }
}

/// `tail` is what remains of `s` after some prefix of it has been removed.
pub open spec fn is_tail(tail: Seq<u8>, s: Seq<u8>) -> bool {
    tail.len() <= s.len() && tail == s.skip(s.len() - tail.len())
}

/// Whatever `r` holds as input left over is a tail of `s`.
pub open spec fn within<T>(r: Parsed<T>, s: Seq<u8>) -> bool {
    match r {
        Ok((rest, _)) => is_tail(rest, s),
        Err(e) => is_tail(e.remaining, s),
    }
}

/// `r` is within `s` and, if it succeeded, consumed at least one byte.
pub open spec fn advances<T>(r: Parsed<T>, s: Seq<u8>) -> bool {
    within(r, s) && (r matches Ok((rest, _)) ==> rest.len() < s.len())
}

/// A tail of a tail is a tail.
pub broadcast proof fn lemma_tail_trans(a: Seq<u8>, b: Seq<u8>, c: Seq<u8>)
    requires
        #[trigger] is_tail(a, b),
        #[trigger] is_tail(b, c),
    ensures
        is_tail(a, c),
{
    assert(a =~= c.skip(c.len() - a.len()));
}

/// What stays within a tail of `s` stays within `s`.
pub proof fn lemma_within_tail<T>(r: Parsed<T>, tail: Seq<u8>, s: Seq<u8>)
    requires
        within(r, tail),
        is_tail(tail, s),
    ensures
        within(r, s),
{
    match r {
        Ok((rest, _)) => lemma_tail_trans(rest, tail, s),
        Err(e) => lemma_tail_trans(e.remaining, tail, s),
    }
}

/// Every sequence is a tail of itself, and so is what is left after skipping.
pub proof fn lemma_tail_skip(s: Seq<u8>, n: int)
    requires
        0 <= n <= s.len(),
    ensures
        is_tail(s.skip(n), s),
        is_tail(s, s),
{
    assert(s =~= s.skip(0));
}

impl<'a> ParseError<'a> {
    /// A failure of `expected` at the start of `remaining`.
    pub fn new(remaining: &'a [u8], expected: Expected) -> (e: Self)
        ensures
            e@ == (Failure { remaining: remaining@, expected }),
    {
        ParseError { remaining, expected }
    }

    /// The number of bytes of `source` that precede the failure: `Some` exactly
    /// when this error's remaining input is a tail of `source`.
    pub fn offset(&self, source: &[u8]) -> (r: Option<usize>)
        ensures
            r == if is_tail(self.remaining@, source@) {
                Some((source@.len() - self.remaining@.len()) as usize)
            } else {
                None
            },
    {
        let left = self.remaining.len();
        let total = source.len();
        if left > total {
            return None;
        }
        let start = total - left;
        let mut i: usize = 0;
        while i < left
            invariant
                left == self.remaining@.len(),
                total == source@.len(),
                start == total - left,
                i <= left,
                forall|k: int| 0 <= k < i ==> self.remaining@[k] == source@[start + k],
            decreases left - i,
        {
            if self.remaining[i] != source[start + i] {
                assert(source@.skip(start as int)[i as int] != self.remaining@[i as int]);
                return None;
            }
            i += 1;
        }
        assert(self.remaining@ =~= source@.skip(start as int));
        Some(start)
    }
}

} // verus!
