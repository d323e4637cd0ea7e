//! The directives that may follow the manifest of a container.
use vstd::prelude::*;
use vstd::std_specs::cmp::PartialEqSpecImpl;
use crate::error::{
    advances, fail, lemma_tail_trans, lemma_within_tail, outcome, Expected, ParseError, Parsed,
};
use crate::name::colon;
use crate::path::{spec_parse_path, PathLike};
use crate::primitives::{
    group_primitives, lemma_take_until_colon, line_feed, space, spec_line_feed, spec_space,
    spec_tag, spec_take_until_colon, tag, take_until_colon,
};
use crate::text::{
    all_in_class, all_of_class, bytes_eq, class_allows, digit, is_digit, lemma_run, spec_run,
    take_run, CharClass,
};

verus! {

/// The keyword `volume`.
pub open spec fn volume_keyword() -> Seq<u8> {
    seq!['v' as u8, 'o' as u8, 'l' as u8, 'u' as u8, 'm' as u8, 'e' as u8]
}

/// The keyword `port`.
pub open spec fn port_keyword() -> Seq<u8> {
    seq!['p' as u8, 'o' as u8, 'r' as u8, 't' as u8]
}

/// The keyword `expose`.
pub open spec fn expose_keyword() -> Seq<u8> {
    seq!['e' as u8, 'x' as u8, 'p' as u8, 'o' as u8, 's' as u8, 'e' as u8]
}

/// The keyword `volume-from`.
pub open spec fn volume_from_keyword() -> Seq<u8> {
    seq![
        'v' as u8,
        'o' as u8,
        'l' as u8,
        'u' as u8,
        'm' as u8,
        'e' as u8,
        '-' as u8,
        'f' as u8,
        'r' as u8,
        'o' as u8,
        'm' as u8,
    ]
}

/// An argument of a container, as a mathematical value.
pub enum ArgumentModel {
    Volume { source: Seq<u8>, mount: Seq<u8> },
    PublishPort { outer: u16, inner: u16 },
    ExposePort { port: u16 },
    VolumeFrom { name: Seq<u8> },
}

impl ArgumentModel {
    /// The argument is one that an argument line can hold: the paths of a
    /// volume are not empty and hold path characters only, and so the name
    /// of a container with name characters.
    pub open spec fn wf(self) -> bool {
        match self {
            ArgumentModel::Volume { source, mount } => {
                &&& source.len() > 0
                &&& all_in_class(source, CharClass::Path)
                &&& mount.len() > 0
                &&& all_in_class(mount, CharClass::Path)
            },
            ArgumentModel::PublishPort { .. } => true,
            ArgumentModel::ExposePort { .. } => true,
            ArgumentModel::VolumeFrom { name } => name.len() > 0 && all_in_class(
                name,
                CharClass::Name,
            ),
        }
    }
}

/// An argument of a container.
#[derive(Clone, Copy, Debug, Hash)]
pub enum Argument<'a> {
    /// Mounts the directory `source` at `mount`.
    Volume { source: &'a [u8], mount: &'a [u8] },
    /// Publishes the port `inner` of the container as `outer`.
    PublishPort { outer: u16, inner: u16 },
    /// Exposes a port of the container.
    ExposePort { port: u16 },
    /// Takes over the volumes of the container `name`.
    VolumeFrom { name: &'a [u8] },
}

impl<'a> View for Argument<'a> {
    type V = ArgumentModel;

    open spec fn view(&self) -> ArgumentModel {
        match *self {
            Argument::Volume { source, mount } => ArgumentModel::Volume {
                source: source@,
                mount: mount@,
            },
            Argument::PublishPort { outer, inner } => ArgumentModel::PublishPort { outer, inner },
            Argument::ExposePort { port } => ArgumentModel::ExposePort { port },
            Argument::VolumeFrom { name } => ArgumentModel::VolumeFrom { name: name@ },
        }
    }
}

impl<'a> PartialEq for Argument<'a> {
    /// Two arguments are equal when they are of the same kind and their
    /// fields are equal.
    fn eq(&self, other: &Self) -> (r: bool) {
        match (self, other) {
            (
                Argument::Volume { source, mount },
                Argument::Volume { source: other_source, mount: other_mount },
            ) => bytes_eq(source, other_source) && bytes_eq(mount, other_mount),
            (
                Argument::PublishPort { outer, inner },
                Argument::PublishPort { outer: other_outer, inner: other_inner },
            ) => *outer == *other_outer && *inner == *other_inner,
            (Argument::ExposePort { port }, Argument::ExposePort { port: other_port }) => *port
                == *other_port,
            (Argument::VolumeFrom { name }, Argument::VolumeFrom { name: other_name }) => bytes_eq(
                name,
                other_name,
            ),
            _ => false,
        }
    }
}

impl<'a> Eq for Argument<'a> {

}

impl<'a> PartialEqSpecImpl for Argument<'a> {
    open spec fn obeys_eq_spec() -> bool {
        true
    }

    open spec fn eq_spec(&self, other: &Self) -> bool {
        self@ == other@
    }
}

impl PathLike for Argument<'_> {

}

/// Why a text is not the decimal notation of a 16-bit number.
#[derive(Clone, Copy, Debug, PartialEq, Eq, Structural)]
pub enum PortError {
    /// The text is empty.
    Empty,
    /// The text holds a byte that is no decimal digit.
    InvalidDigit,
    /// The number is greater than 65535.
    Overflow,
}

/// The number that a byte stands for as a decimal digit.
pub open spec fn digit_value(b: u8) -> nat {
    if is_digit(b) {
        (b - 0x30) as nat
    } else {
        0
    }
}

/// The number that a string of decimal digits denotes.
pub open spec fn decimal(s: Seq<u8>) -> nat
    decreases s.len(),
{
    if s.len() == 0 {
        0
    } else {
        decimal(s.drop_last()) * 10 + digit_value(s.last())
    }
}

/// The 16-bit number that `s` denotes: `s` is not empty, holds decimal
/// digits only, and its value is at most 65535.
pub open spec fn spec_parse_to_u16(s: Seq<u8>) -> Result<u16, PortError> {
    if s.len() == 0 {
        Err(PortError::Empty)
    } else if !all_in_class(s, CharClass::Digit) {
        Err(PortError::InvalidDigit)
    } else if decimal(s) > 0xffff {
        Err(PortError::Overflow)
    } else {
        Ok(decimal(s) as u16)
    }
}

/// A prefix of a digit string denotes no more than the whole.
pub proof fn lemma_decimal_prefix(s: Seq<u8>, k: int)
    requires
        0 <= k <= s.len(),
    ensures
        decimal(s.take(k)) <= decimal(s),
    decreases s.len(),
{
    if k == s.len() {
        assert(s.take(k) =~= s);
    } else {
        assert(s.drop_last().take(k) =~= s.take(k));
        lemma_decimal_prefix(s.drop_last(), k);
    }
}

/// The `: ` between a keyword and its value.
pub open spec fn spec_separator(s: Seq<u8>) -> Parsed<Seq<u8>> {
    match spec_tag(s, colon(), Expected::Colon) {
        Err(e) => Err(e),
        Ok((s1, _)) => spec_space(s1),
    }
}

/// The name of a container whose volumes are taken over: one or more ASCII
/// letters, digits, `_` or `-`.
pub open spec fn spec_parse_volume_name(s: Seq<u8>) -> Parsed<Seq<u8>> {
    spec_run(s, CharClass::Name, Expected::Name)
}

/// The rest of a `volume` line: `: <source>:<mount>`. The source is the text
/// before the next `:`; it is not empty and holds path characters only. The
/// mount is a path. A line ending or NUL ends the line.
pub open spec fn spec_volume(s: Seq<u8>) -> Parsed<ArgumentModel> {
    match spec_separator(s) {
        Err(e) => Err(e),
        Ok((s1, _)) => match spec_take_until_colon(s1) {
            Err(e) => Err(e),
            Ok((s2, source)) => if source.len() == 0 || !all_in_class(source, CharClass::Path) {
                fail(s1, Expected::Path)
            } else {
                match spec_tag(s2, colon(), Expected::Colon) {
                    Err(e) => Err(e),
                    Ok((s3, _)) => match spec_parse_path(s3) {
                        Err(e) => Err(e),
                        Ok((s4, mount)) => match spec_line_feed(s4) {
                            Err(e) => Err(e),
                            Ok((s5, _)) => Ok((s5, ArgumentModel::Volume { source, mount })),
                        },
                    },
                }
            },
        },
    }
}

/// The rest of a `port` line: `: <outer>:<inner>`. The outer port is the
/// text before the next `:`, the inner port a run of digits; both denote
/// 16-bit numbers. A line ending or NUL ends the line.
pub open spec fn spec_port(s: Seq<u8>) -> Parsed<ArgumentModel> {
    match spec_separator(s) {
        Err(e) => Err(e),
        Ok((s1, _)) => match spec_take_until_colon(s1) {
            Err(e) => Err(e),
            Ok((s2, outer_text)) => match spec_parse_to_u16(outer_text) {
                Err(_) => fail(s1, Expected::Port),
                Ok(outer) => match spec_tag(s2, colon(), Expected::Colon) {
                    Err(e) => Err(e),
                    Ok((s3, _)) => match spec_run(s3, CharClass::Digit, Expected::Digits) {
                        Err(e) => Err(e),
                        Ok((s4, inner_text)) => match spec_line_feed(s4) {
                            Err(e) => Err(e),
                            Ok((s5, _)) => match spec_parse_to_u16(inner_text) {
                                Err(_) => fail(s3, Expected::Port),
                                Ok(inner) => Ok(
                                    (s5, ArgumentModel::PublishPort { outer, inner }),
                                ),
                            },
                        },
                    },
                },
            },
        },
    }
}

/// The rest of an `expose` line: `: <port>`, a run of digits that denotes a
/// 16-bit number. A line ending or NUL ends the line.
pub open spec fn spec_expose(s: Seq<u8>) -> Parsed<ArgumentModel> {
    match spec_separator(s) {
        Err(e) => Err(e),
        Ok((s1, _)) => match spec_run(s1, CharClass::Digit, Expected::Digits) {
            Err(e) => Err(e),
            Ok((s2, text)) => match spec_line_feed(s2) {
                Err(e) => Err(e),
                Ok((s3, _)) => match spec_parse_to_u16(text) {
                    Err(_) => fail(s1, Expected::Port),
                    Ok(port) => Ok((s3, ArgumentModel::ExposePort { port })),
                },
            },
        },
    }
}

/// The rest of a `volume-from` line: `: <name>`. A line ending or NUL ends
/// the line.
pub open spec fn spec_volume_from(s: Seq<u8>) -> Parsed<ArgumentModel> {
    match spec_separator(s) {
        Err(e) => Err(e),
        Ok((s1, _)) => match spec_parse_volume_name(s1) {
            Err(e) => Err(e),
            Ok((s2, name)) => match spec_line_feed(s2) {
                Err(e) => Err(e),
                Ok((s3, _)) => Ok((s3, ArgumentModel::VolumeFrom { name })),
            },
        },
    }
}

/// One argument line without its indentation. The keyword is the text before
/// the first `:`; it selects the grammar of the rest of the line.
pub open spec fn spec_argument(s: Seq<u8>) -> Parsed<ArgumentModel> {
    match spec_take_until_colon(s) {
        Err(e) => Err(e),
        Ok((s1, keyword)) => if keyword == volume_keyword() {
            spec_volume(s1)
        } else if keyword == port_keyword() {
            spec_port(s1)
        } else if keyword == expose_keyword() {
            spec_expose(s1)
        } else if keyword == volume_from_keyword() {
            spec_volume_from(s1)
        } else {
            fail(s, Expected::Keyword)
        },
    }
}

/// The separator advances.
pub broadcast proof fn lemma_separator(s: Seq<u8>)
    ensures
        advances(#[trigger] spec_separator(s), s),
{
    broadcast use {group_primitives, lemma_tail_trans};

}

/// What follows the keyword `volume` advances, and the argument is well
/// formed.
pub proof fn lemma_volume(s: Seq<u8>)
    ensures
        advances(spec_volume(s), s),
        spec_volume(s) matches Ok((_, argument)) ==> argument.wf(),
{
    broadcast use {group_primitives, lemma_run, lemma_tail_trans, lemma_separator};

}

/// What follows the keyword `port` advances.
pub proof fn lemma_port(s: Seq<u8>)
    ensures
        advances(spec_port(s), s),
        spec_port(s) matches Ok((_, argument)) ==> argument.wf(),
{
    broadcast use {group_primitives, lemma_run, lemma_tail_trans, lemma_separator};

}

/// What follows the keyword `expose` advances.
pub proof fn lemma_expose(s: Seq<u8>)
    ensures
        advances(spec_expose(s), s),
        spec_expose(s) matches Ok((_, argument)) ==> argument.wf(),
{
    broadcast use {group_primitives, lemma_run, lemma_tail_trans, lemma_separator};

}

/// What follows the keyword `volume-from` advances, and the argument is well
/// formed.
pub proof fn lemma_volume_from(s: Seq<u8>)
    ensures
        advances(spec_volume_from(s), s),
        spec_volume_from(s) matches Ok((_, argument)) ==> argument.wf(),
{
    broadcast use {group_primitives, lemma_run, lemma_tail_trans, lemma_separator};

}

/// An argument advances and is well formed.
pub broadcast proof fn lemma_argument(s: Seq<u8>)
    ensures
        advances(#[trigger] spec_argument(s), s),
        spec_argument(s) matches Ok((_, argument)) ==> argument.wf(),
{
    lemma_take_until_colon(s);
    assert(s =~= s.skip(0));
    if let Ok((rest, keyword)) = spec_take_until_colon(s) {
        if keyword == volume_keyword() {
            lemma_volume(rest);
            lemma_within_tail(spec_volume(rest), rest, s);
        } else if keyword == port_keyword() {
            lemma_port(rest);
            lemma_within_tail(spec_port(rest), rest, s);
        } else if keyword == expose_keyword() {
            lemma_expose(rest);
            lemma_within_tail(spec_expose(rest), rest, s);
        } else if keyword == volume_from_keyword() {
            lemma_volume_from(rest);
            lemma_within_tail(spec_volume_from(rest), rest, s);
        }
    }
}

impl<'a> Argument<'a> {
    /// Reads `bytes` as the decimal notation of a 16-bit number.
    pub fn parse_to_u16(bytes: &[u8]) -> (r: Result<u16, PortError>)
        ensures
            r == spec_parse_to_u16(bytes@),
    {
        if bytes.len() == 0 {
            return Err(PortError::Empty);
        }
        if !all_of_class(bytes, CharClass::Digit) {
            return Err(PortError::InvalidDigit);
        }
        let mut value: u32 = 0;
        let mut i: usize = 0;
        while i < bytes.len()
            invariant
                i <= bytes@.len(),
                all_in_class(bytes@, CharClass::Digit),
                value == decimal(bytes@.take(i as int)),
                value <= 0xffff,
            decreases bytes@.len() - i,
        {
            let next: u32 = value * 10 + (bytes[i] - 0x30) as u32;
            proof {
                let upto = bytes@.take(i + 1);
                assert(upto.drop_last() =~= bytes@.take(i as int));
                assert(upto.last() == bytes@[i as int]);
                assert(next == decimal(upto));
            }
            if next > 0xffff {
                proof {
                    lemma_decimal_prefix(bytes@, i + 1);
                }
                return Err(PortError::Overflow);
            }
            value = next;
            i += 1;
        }
        assert(bytes@.take(i as int) =~= bytes@);
        Ok(value as u16)
    }

    /// Whether every byte of `path` is a path character. An empty path has
    /// none that is not.
    pub fn verify_path(path: &[u8]) -> (r: bool)
        ensures
            r == all_in_class(path@, CharClass::Path),
    {
        let mut i: usize = 0;
        while i < path.len()
            invariant
                i <= path@.len(),
                forall|k: int| 0 <= k < i ==> class_allows(CharClass::Path, #[trigger] path@[k]),
            decreases path@.len() - i,
        {
            if !Self::is_allowed(path[i] as char) {
                return false;
            }
            i += 1;
        }
        true
    }

    /// Takes the longest run of name characters at the start of `input`.
    /// Fails if `input` is empty or its first byte is no name character.
    pub fn parse_volume_name(input: &'a [u8]) -> (r: Result<
        (&'a [u8], &'a [u8]),
        ParseError<'a>,
    >)
        ensures
            outcome(r) == spec_parse_volume_name(input@),
    {
        take_run(input, CharClass::Name, Expected::Name)
    }
}

/// Matches the `: ` between a keyword and its value.
pub fn separator<'a>(input: &'a [u8]) -> (r: Result<(&'a [u8], &'a [u8]), ParseError<'a>>)
    ensures
        outcome(r) == spec_separator(input@),
{
    let literal: [u8; 1] = [':' as u8];
    assert(literal@ =~= colon());
    let (rest, _) = tag(input, &literal, Expected::Colon)?;
    space(rest)
}

/// Parses what follows the keyword of a `volume` line.
pub fn volume<'a>(input: &'a [u8]) -> (r: Result<(&'a [u8], Argument<'a>), ParseError<'a>>)
    ensures
        outcome(r) == spec_volume(input@),
{
    let (value, _) = separator(input)?;
    let (rest, source) = take_until_colon(value)?;
    if source.len() == 0 || !Argument::verify_path(source) {
        return Err(ParseError::new(value, Expected::Path));
    }
    let literal: [u8; 1] = [':' as u8];
    assert(literal@ =~= colon());
    let (rest, _) = tag(rest, &literal, Expected::Colon)?;
    let (rest, mount) = Argument::parse_path(rest)?;
    let (rest, _) = line_feed(rest)?;
    Ok((rest, Argument::Volume { source, mount }))
}

/// Parses what follows the keyword of a `port` line.
pub fn port<'a>(input: &'a [u8]) -> (r: Result<(&'a [u8], Argument<'a>), ParseError<'a>>)
    ensures
        outcome(r) == spec_port(input@),
{
    let (value, _) = separator(input)?;
    let (rest, outer_text) = take_until_colon(value)?;
    let outer = match Argument::parse_to_u16(outer_text) {
        Ok(number) => number,
        Err(_) => {
            return Err(ParseError::new(value, Expected::Port));
        },
    };
    let literal: [u8; 1] = [':' as u8];
    assert(literal@ =~= colon());
    let (inner_start, _) = tag(rest, &literal, Expected::Colon)?;
    let (rest, inner_text) = digit(inner_start)?;
    let (rest, _) = line_feed(rest)?;
    match Argument::parse_to_u16(inner_text) {
        Ok(inner) => Ok((rest, Argument::PublishPort { outer, inner })),
        Err(_) => Err(ParseError::new(inner_start, Expected::Port)),
    }
}

/// Parses what follows the keyword of an `expose` line.
pub fn expose<'a>(input: &'a [u8]) -> (r: Result<(&'a [u8], Argument<'a>), ParseError<'a>>)
    ensures
        outcome(r) == spec_expose(input@),
{
    let (value, _) = separator(input)?;
    let (rest, text) = digit(value)?;
    let (rest, _) = line_feed(rest)?;
    match Argument::parse_to_u16(text) {
        Ok(port) => Ok((rest, Argument::ExposePort { port })),
        Err(_) => Err(ParseError::new(value, Expected::Port)),
    }
}

/// Parses what follows the keyword of a `volume-from` line.
pub fn volume_from<'a>(input: &'a [u8]) -> (r: Result<(&'a [u8], Argument<'a>), ParseError<'a>>)
    ensures
        outcome(r) == spec_volume_from(input@),
{
    let (value, _) = separator(input)?;
    let (rest, name) = Argument::parse_volume_name(value)?;
    let (rest, _) = line_feed(rest)?;
    Ok((rest, Argument::VolumeFrom { name }))
}

/// Parses one argument line, without its indentation.
pub fn argument<'a>(input: &'a [u8]) -> (r: Result<(&'a [u8], Argument<'a>), ParseError<'a>>)
    ensures
        outcome(r) == spec_argument(input@),
{
    let (rest, keyword) = take_until_colon(input)?;
    let volume_word: [u8; 6] = ['v' as u8, 'o' as u8, 'l' as u8, 'u' as u8, 'm' as u8, 'e' as u8];
    assert(volume_word@ =~= volume_keyword());
    let port_word: [u8; 4] = ['p' as u8, 'o' as u8, 'r' as u8, 't' as u8];
    assert(port_word@ =~= port_keyword());
    let expose_word: [u8; 6] = ['e' as u8, 'x' as u8, 'p' as u8, 'o' as u8, 's' as u8, 'e' as u8];
    assert(expose_word@ =~= expose_keyword());
    let volume_from_word: [u8; 11] = [
        'v' as u8,
        'o' as u8,
        'l' as u8,
        'u' as u8,
        'm' as u8,
        'e' as u8,
        '-' as u8,
        'f' as u8,
        'r' as u8,
        'o' as u8,
        'm' as u8,
    ];
    assert(volume_from_word@ =~= volume_from_keyword());
    if bytes_eq(keyword, &volume_word) {
        volume(rest)
    } else if bytes_eq(keyword, &port_word) {
        port(rest)
    } else if bytes_eq(keyword, &expose_word) {
        expose(rest)
    } else if bytes_eq(keyword, &volume_from_word) {
        volume_from(rest)
    } else {
        Err(ParseError::new(input, Expected::Keyword))
    }
}

} // verus!
