//! Bytes and character classes.
//!
//! The grammar reads its values as runs of bytes from a class. In a path or
//! a manifest text a byte stands for the character with the same code. The
//! letters and digits of the ASCII range are `A-Z`, `a-z` and `0-9`; beyond
//! it `char::is_alphanumeric` says what a letter or a digit is. Names are
//! ASCII.
use vstd::prelude::*;
use crate::error::{advances, fail, lemma_tail_skip, outcome, Expected, ParseError, Parsed};
use crate::outside::{char_is_alphanumeric, split_digits, split_run, unicode_alphanumeric};

verus! {

/// An ASCII letter or digit: `A-Z`, `a-z`, `0-9`.
pub open spec fn ascii_alphanumeric(b: u8) -> bool {
    (0x41 <= b <= 0x5A) || (0x61 <= b <= 0x7A) || (0x30 <= b <= 0x39)
}

/// A decimal digit, `0-9`.
pub open spec fn is_digit(b: u8) -> bool {
    0x30 <= b <= 0x39
}

/// A letter or a digit, given what `char::is_alphanumeric` says of the
/// character. In the ASCII range the letters and digits are `A-Z`, `a-z` and
/// `0-9`; of any other character `unicode` decides.
pub open spec fn letter_or_digit_if(chr: char, unicode: bool) -> bool {
    if (chr as u32) < 0x80 {
        ascii_alphanumeric(chr as u8)
    } else {
        unicode
    }
}

/// A letter or a digit.
pub open spec fn letter_or_digit(chr: char) -> bool {
    letter_or_digit_if(chr, unicode_alphanumeric(chr))
}

/// A character of a path: a letter, a digit, `/`, `_` or `-`.
pub open spec fn path_allowed(chr: char) -> bool {
    chr == '/' || chr == '_' || chr == '-' || letter_or_digit(chr)
}

/// A character of a manifest text: a letter, a digit, `:`, `_`, `/` or `.`.
pub open spec fn manifest_allowed(chr: char) -> bool {
    chr == ':' || chr == '_' || chr == '/' || chr == '.' || letter_or_digit(chr)
}

/// A byte of a name: an ASCII letter or digit, `_` or `-`.
pub open spec fn name_allowed(b: u8) -> bool {
    b == '_' as u8 || b == '-' as u8 || ascii_alphanumeric(b)
}

/// The classes of bytes that the grammar reads runs of.
#[derive(Clone, Copy, Debug, PartialEq, Eq, Structural)]
pub enum CharClass {
    /// The bytes of a path.
    Path,
    /// The bytes of a manifest text.
    ManifestText,
    /// The bytes of a name.
    Name,
    /// The decimal digits.
    Digit,
    /// Every byte but `:`.
    NotColon,
}

/// Whether `b` belongs to `class`. A byte stands for the character with the
/// same code.
pub open spec fn class_allows(class: CharClass, b: u8) -> bool {
    match class {
        CharClass::Path => path_allowed(b as char),
        CharClass::ManifestText => manifest_allowed(b as char),
        CharClass::Name => name_allowed(b),
        CharClass::Digit => is_digit(b),
        CharClass::NotColon => b != ':' as u8,
    }
}

/// Every byte of `s` belongs to `class`.
pub open spec fn all_in_class(s: Seq<u8>, class: CharClass) -> bool {
    forall|i: int| 0 <= i < s.len() ==> class_allows(class, #[trigger] s[i])
}

/// The length of the longest prefix of `s` whose bytes all belong to `class`.
pub open spec fn run_len(s: Seq<u8>, class: CharClass) -> nat
    decreases s.len(),
{
    if s.len() > 0 && class_allows(class, s[0]) {
        1 + run_len(s.skip(1), class)
    } else {
        0
    }
}

/// The run ends inside `s`, holds only bytes of the class, and the byte after
/// it, if there is one, is not of the class.
pub proof fn lemma_run_len(s: Seq<u8>, class: CharClass)
    ensures
        run_len(s, class) <= s.len(),
        all_in_class(s.take(run_len(s, class) as int), class),
        run_len(s, class) < s.len() ==> !class_allows(class, s[run_len(s, class) as int]),
    decreases s.len(),
{
    if s.len() > 0 && class_allows(class, s[0]) {
        let t = s.skip(1);
        lemma_run_len(t, class);
        let n = run_len(t, class) as int;
        assert forall|i: int| 0 <= i < n + 1 implies class_allows(
            class,
            #[trigger] s.take(n + 1)[i],
        ) by {
            if i > 0 {
                assert(s.take(n + 1)[i] == t.take(n)[i - 1]);
            }
        }
        if n + 1 < s.len() {
            assert(s[n + 1] == t[n]);
        }
    }
}

/// A prefix of class bytes that cannot be extended is the run.
pub proof fn lemma_run_len_is(s: Seq<u8>, class: CharClass, n: int)
    requires
        0 <= n <= s.len(),
        forall|i: int| 0 <= i < n ==> class_allows(class, #[trigger] s[i]),
        n < s.len() ==> !class_allows(class, s[n]),
    ensures
        run_len(s, class) == n,
    decreases s.len(),
{
    if n > 0 {
        let t = s.skip(1);
        assert forall|i: int| 0 <= i < n - 1 implies class_allows(class, #[trigger] t[i]) by {
            assert(t[i] == s[i + 1]);
        }
        if n - 1 < t.len() {
            assert(t[n - 1] == s[n]);
        }
        lemma_run_len_is(t, class, n - 1);
    }
}

/// Whether `chr` is a letter or a digit, where `unicode` is what
/// `char::is_alphanumeric` says of it.
pub fn is_letter_or_digit_if(chr: char, unicode: bool) -> (r: bool)
    ensures
        r == letter_or_digit_if(chr, unicode),
{
    if (chr as u32) < 0x80 {
        nom::character::is_alphanumeric(chr as u8)
    } else {
        unicode
    }
}

/// Whether `chr` is a letter or a digit.
pub fn is_letter_or_digit(chr: char) -> (r: bool)
    ensures
        r == letter_or_digit(chr),
{
    is_letter_or_digit_if(chr, char_is_alphanumeric(chr))
}

/// Whether `chr` may stand in a path.
pub fn is_path_char(chr: char) -> (r: bool)
    ensures
        r == path_allowed(chr),
{
    chr == '/' || chr == '_' || chr == '-' || is_letter_or_digit(chr)
}

/// Whether `chr` may stand in a manifest text.
pub fn is_manifest_char(chr: char) -> (r: bool)
    ensures
        r == manifest_allowed(chr),
{
    chr == ':' || chr == '_' || chr == '/' || chr == '.' || is_letter_or_digit(chr)
}

/// Whether `b` may stand in a name.
pub fn is_name_byte(b: u8) -> (r: bool)
    ensures
        r == name_allowed(b),
{
    b == '_' as u8 || b == '-' as u8 || nom::character::is_alphanumeric(b)
}

/// Whether `b` belongs to `class`.
pub fn in_class(class: CharClass, b: u8) -> (r: bool)
    ensures
        r == class_allows(class, b),
{
    match class {
        CharClass::Path => is_path_char(b as char),
        CharClass::ManifestText => is_manifest_char(b as char),
        CharClass::Name => is_name_byte(b),
        CharClass::Digit => 0x30 <= b && b <= 0x39,
        CharClass::NotColon => b != ':' as u8,
    }
}

/// Whether `b` ends a run of `class`.
pub fn ends_run(class: CharClass, b: u8) -> (r: bool)
    ensures
        r == !class_allows(class, b),
{
    !in_class(class, b)
}

/// Whether two byte strings hold the same bytes.
pub fn bytes_eq(a: &[u8], b: &[u8]) -> (r: bool)
    ensures
        r == (a@ == b@),
{
    if a.len() != b.len() {
        return false;
    }
    let mut i: usize = 0;
    while i < a.len()
        invariant
            a@.len() == b@.len(),
            i <= a@.len(),
            forall|k: int| 0 <= k < i ==> a@[k] == b@[k],
        decreases a@.len() - i,
    {
        if a[i] != b[i] {
            return false;
        }
        i += 1;
    }
    assert(a@ =~= b@);
    true
}

/// Whether `input` begins with `prefix`.
pub fn starts_with(input: &[u8], prefix: &[u8]) -> (r: bool)
    ensures
        r == prefix@.is_prefix_of(input@),
{
    if prefix.len() > input.len() {
        return false;
    }
    let mut i: usize = 0;
    while i < prefix.len()
        invariant
            prefix@.len() <= input@.len(),
            i <= prefix@.len(),
            forall|k: int| 0 <= k < i ==> prefix@[k] == input@[k],
        decreases prefix@.len() - i,
    {
        if prefix[i] != input[i] {
            assert(input@.subrange(0, prefix@.len() as int)[i as int] != prefix@[i as int]);
            return false;
        }
        i += 1;
    }
    assert(prefix@ =~= input@.subrange(0, prefix@.len() as int));
    true
}

/// Whether every byte of `s` belongs to `class`.
pub fn all_of_class(s: &[u8], class: CharClass) -> (r: bool)
    ensures
        r == all_in_class(s@, class),
{
    let mut i: usize = 0;
    while i < s.len()
        invariant
            i <= s@.len(),
            forall|k: int| 0 <= k < i ==> class_allows(class, #[trigger] s@[k]),
        decreases s@.len() - i,
    {
        if !in_class(class, s[i]) {
            return false;
        }
        i += 1;
    }
    true
}

/// The run of `class` at the start of `s`, or the failure of `expected` where
/// the run is empty.
pub open spec fn spec_run(s: Seq<u8>, class: CharClass, expected: Expected) -> Parsed<Seq<u8>> {
    let n = run_len(s, class) as int;
    if n > 0 {
        Ok((s.skip(n), s.take(n)))
    } else {
        fail(s, expected)
    }
}

/// A run advances, and what it takes lies in the class.
pub broadcast proof fn lemma_run(s: Seq<u8>, class: CharClass, expected: Expected)
    ensures
        advances(#[trigger] spec_run(s, class, expected), s),
        spec_run(s, class, expected) matches Ok((rest, run)) ==> run.len() > 0 && all_in_class(
            run,
            class,
        ) && run + rest == s,
{
    lemma_run_len(s, class);
    let n = run_len(s, class) as int;
    lemma_tail_skip(s, n);
    assert(s.take(n) + s.skip(n) =~= s);
}

/// Takes the longest run of `class` at the start of `input`; fails with
/// `expected` if the first byte is not of the class or the input is empty.
pub fn take_run<'a>(input: &'a [u8], class: CharClass, expected: Expected) -> (r: Result<
    (&'a [u8], &'a [u8]),
    ParseError<'a>,
>)
    ensures
        outcome(r) == spec_run(input@, class, expected),
{
    match split_run(input, class) {
        Some(pair) => Ok(pair),
        None => Err(ParseError::new(input, expected)),
    }
}

/// Takes one or more decimal digits.
pub fn digit<'a>(input: &'a [u8]) -> (r: Result<(&'a [u8], &'a [u8]), ParseError<'a>>)
    ensures
        outcome(r) == spec_run(input@, CharClass::Digit, Expected::Digits),
{
    match split_digits(input) {
        Some(pair) => Ok(pair),
        None => Err(ParseError::new(input, Expected::Digits)),
    }
}

} // verus!
