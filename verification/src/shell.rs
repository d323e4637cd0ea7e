//! The optional block that names the shell.
use vstd::prelude::*;
use vstd::std_specs::cmp::PartialEqSpecImpl;
use vstd::string::StringSliceAdditionalSpecFns;
use crate::error::{advances, lemma_tail_trans, outcome, Expected, ParseError, Parsed};
use crate::path::{spec_parse_path, PathLike};
use crate::primitives::{
    group_primitives, line_feed, space, spec_line_feed, spec_space, spec_tab, spec_tag, tab,
    tag,
};
use crate::text::{bytes_eq, lemma_run};

verus! {

/// The path of the shell that is used when a document names none.
pub open spec fn default_shell_path() -> Seq<u8> {
    seq![
        '/' as u8,
        'b' as u8,
        'i' as u8,
        'n' as u8,
        '/' as u8,
        'b' as u8,
        'a' as u8,
        's' as u8,
        'h' as u8,
    ]
}

/// The literal `@shell:`.
pub open spec fn shell_header() -> Seq<u8> {
    seq!['@' as u8, 's' as u8, 'h' as u8, 'e' as u8, 'l' as u8, 'l' as u8, ':' as u8]
}

/// The literal `path:`.
pub open spec fn path_key() -> Seq<u8> {
    seq!['p' as u8, 'a' as u8, 't' as u8, 'h' as u8, ':' as u8]
}

/// The shell of a document, as a mathematical value.
pub struct ShellModel {
    pub path: Seq<u8>,
}

/// The shell that the containers of a document are run with.
#[derive(Clone, Copy, Debug)]
pub struct Shell<'a> {
    path: &'a [u8],
}

impl<'a> View for Shell<'a> {
    type V = ShellModel;

    closed spec fn view(&self) -> ShellModel {
        ShellModel { path: self.path@ }
    }
}

impl<'a> Shell<'a> {
    /// The path of the shell.
    pub fn path(&self) -> (path: &'a [u8])
        ensures
            path@ == self@.path,
    {
        self.path
    }
}

impl<'a> PartialEq<&str> for Shell<'a> {
    /// A shell equals a string when its path holds the bytes of the string.
    fn eq(&self, other: &&str) -> (r: bool) {
        bytes_eq(self.path, other.as_bytes())
    }
}

impl<'a> PartialEqSpecImpl<&str> for Shell<'a> {
    open spec fn obeys_eq_spec() -> bool {
        true
    }

    open spec fn eq_spec(&self, other: &&str) -> bool {
        self@.path == other.spec_bytes()
    }
}

impl Default for Shell<'_> {
    /// The shell `/bin/bash`.
    fn default() -> (shell: Self)
        ensures
            shell@.path == default_shell_path(),
    {
        let path: &'static [u8; 9] = &[
            '/' as u8,
            'b' as u8,
            'i' as u8,
            'n' as u8,
            '/' as u8,
            'b' as u8,
            'a' as u8,
            's' as u8,
            'h' as u8,
        ];
        assert(path@ =~= default_shell_path());
        Shell { path }
    }
}

impl PathLike for Shell<'_> {

}

/// The shell block:
///
/// ```text
/// @shell:
///     path: <path>
/// ```
///
/// The header and the path each end with a line ending or NUL.
pub open spec fn spec_shell(s: Seq<u8>) -> Parsed<ShellModel> {
    match spec_tag(s, shell_header(), Expected::ShellHeader) {
        Err(e) => Err(e),
        Ok((s1, _)) => match spec_line_feed(s1) {
            Err(e) => Err(e),
            Ok((s2, _)) => match spec_tab(s2) {
                Err(e) => Err(e),
                Ok((s3, _)) => match spec_tag(s3, path_key(), Expected::PathKey) {
                    Err(e) => Err(e),
                    Ok((s4, _)) => match spec_space(s4) {
                        Err(e) => Err(e),
                        Ok((s5, _)) => match spec_parse_path(s5) {
                            Err(e) => Err(e),
                            Ok((s6, path)) => match spec_line_feed(s6) {
                                Err(e) => Err(e),
                                Ok((s7, _)) => Ok((s7, ShellModel { path })),
                            },
                        },
                    },
                },
            },
        },
    }
}

/// A shell block advances.
pub proof fn lemma_shell(s: Seq<u8>)
    ensures
        advances(spec_shell(s), s),
{
    broadcast use {group_primitives, lemma_run, lemma_tail_trans};

}

/// Parses the shell block at the start of `input`.
pub fn shell<'a>(input: &'a [u8]) -> (r: Result<(&'a [u8], Shell<'a>), ParseError<'a>>)
    ensures
        outcome(r) == spec_shell(input@),
{
    let header: [u8; 7] = ['@' as u8, 's' as u8, 'h' as u8, 'e' as u8, 'l' as u8, 'l' as u8, ':' as u8];
    assert(header@ =~= shell_header());
    let key: [u8; 5] = ['p' as u8, 'a' as u8, 't' as u8, 'h' as u8, ':' as u8];
    assert(key@ =~= path_key());
    let (rest, _) = tag(input, &header, Expected::ShellHeader)?;
    let (rest, _) = line_feed(rest)?;
    let (rest, _) = tab(rest)?;
    let (rest, _) = tag(rest, &key, Expected::PathKey)?;
    let (rest, _) = space(rest)?;
    let (rest, path) = Shell::parse_path(rest)?;
    let (rest, _) = line_feed(rest)?;
    Ok((rest, Shell { path }))
}

} // verus!
