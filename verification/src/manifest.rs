//! The mandatory `from:` line of a container.
use vstd::prelude::*;
use vstd::std_specs::cmp::PartialEqSpecImpl;
use crate::error::{advances, lemma_tail_trans, outcome, Expected, ParseError, Parsed};
use crate::primitives::{
    group_primitives, line_feed, space, spec_line_feed, spec_space, spec_tag, tag,
};
use crate::text::{
    all_in_class, bytes_eq, lemma_run, spec_run, starts_with, take_run, CharClass,
};

verus! {

/// The literal `from:`.
pub open spec fn from_key() -> Seq<u8> {
    seq!['f' as u8, 'r' as u8, 'o' as u8, 'm' as u8, ':' as u8]
}

/// The literal `Dockerfile`.
pub open spec fn dockerfile() -> Seq<u8> {
    seq![
        'D' as u8,
        'o' as u8,
        'c' as u8,
        'k' as u8,
        'e' as u8,
        'r' as u8,
        'f' as u8,
        'i' as u8,
        'l' as u8,
        'e' as u8,
    ]
}

/// What a container is made from, as a mathematical value.
pub enum ManifestModel {
    File(Seq<u8>),
    Image(Seq<u8>),
}

impl ManifestModel {
    /// The text of the manifest.
    pub open spec fn text(self) -> Seq<u8> {
        match self {
            ManifestModel::File(text) => text,
            ManifestModel::Image(text) => text,
        }
    }

    /// The manifest is one that a manifest line can hold: its text is not
    /// empty and holds manifest characters only, and it is a build file
    /// exactly when the text begins with `Dockerfile`.
    pub open spec fn wf(self) -> bool {
        &&& self.text().len() > 0
        &&& all_in_class(self.text(), CharClass::ManifestText)
        &&& self is File <==> dockerfile().is_prefix_of(self.text())
    }
}

/// What a container is made from: a build file or an image.
#[derive(Clone, Copy, Debug)]
pub enum Manifest<'a> {
    /// The path of a build file.
    File(&'a [u8]),
    /// The reference of an image.
    Image(&'a [u8]),
}

impl<'a> View for Manifest<'a> {
    type V = ManifestModel;

    open spec fn view(&self) -> ManifestModel {
        match *self {
            Manifest::File(path) => ManifestModel::File(path@),
            Manifest::Image(reference) => ManifestModel::Image(reference@),
        }
    }
}

impl<'a> PartialEq for Manifest<'a> {
    /// Two manifests are equal when they are of the same kind and hold the
    /// same text.
    fn eq(&self, other: &Self) -> (r: bool) {
        match (self, other) {
            (Manifest::File(path), Manifest::File(other_path)) => bytes_eq(path, other_path),
            (Manifest::Image(reference), Manifest::Image(other_reference)) => bytes_eq(
                reference,
                other_reference,
            ),
            _ => false,
        }
    }
}

impl<'a> PartialEqSpecImpl for Manifest<'a> {
    open spec fn obeys_eq_spec() -> bool {
        true
    }

    open spec fn eq_spec(&self, other: &Self) -> bool {
        self@ == other@
    }
}

/// A manifest text that begins with `Dockerfile` names a build file; every
/// other text names an image.
pub open spec fn classify(text: Seq<u8>) -> ManifestModel {
    if dockerfile().is_prefix_of(text) {
        ManifestModel::File(text)
    } else {
        ManifestModel::Image(text)
    }
}

/// A manifest text: one or more letters, digits, `:`, `_`, `/` or `.`.
pub open spec fn spec_parse_manifest(s: Seq<u8>) -> Parsed<Seq<u8>> {
    spec_run(s, CharClass::ManifestText, Expected::ManifestText)
}

/// The manifest line: `from: <text>`, ended by a line ending or NUL.
pub open spec fn spec_manifest(s: Seq<u8>) -> Parsed<ManifestModel> {
    match spec_tag(s, from_key(), Expected::FromKey) {
        Err(e) => Err(e),
        Ok((s1, _)) => match spec_space(s1) {
            Err(e) => Err(e),
            Ok((s2, _)) => match spec_parse_manifest(s2) {
                Err(e) => Err(e),
                Ok((s3, text)) => match spec_line_feed(s3) {
                    Err(e) => Err(e),
                    Ok((s4, _)) => Ok((s4, classify(text))),
                },
            },
        },
    }
}

/// A manifest line advances, and its manifest is well formed.
pub proof fn lemma_manifest(s: Seq<u8>)
    ensures
        advances(spec_manifest(s), s),
        spec_manifest(s) matches Ok((_, manifest)) ==> manifest.wf(),
{
    broadcast use {group_primitives, lemma_run, lemma_tail_trans};

}

impl<'a> Manifest<'a> {
    /// Takes the longest run of manifest characters at the start of `input`.
    /// Fails if `input` is empty or its first byte is no manifest character.
    pub fn parse_manifest(input: &'a [u8]) -> (r: Result<(&'a [u8], &'a [u8]), ParseError<'a>>)
        ensures
            outcome(r) == spec_parse_manifest(input@),
    {
        take_run(input, CharClass::ManifestText, Expected::ManifestText)
    }

    /// The manifest that `text` names: a build file if it begins with
    /// `Dockerfile`, an image otherwise.
    pub fn from_text(text: &'a [u8]) -> (manifest: Self)
        ensures
            manifest@ == classify(text@),
    {
        let prefix: [u8; 10] = [
            'D' as u8,
            'o' as u8,
            'c' as u8,
            'k' as u8,
            'e' as u8,
            'r' as u8,
            'f' as u8,
            'i' as u8,
            'l' as u8,
            'e' as u8,
        ];
        assert(prefix@ =~= dockerfile());
        if starts_with(text, &prefix) {
            Manifest::File(text)
        } else {
            Manifest::Image(text)
        }
    }
}

/// Parses the manifest line at the start of `input`.
pub fn manifest<'a>(input: &'a [u8]) -> (r: Result<(&'a [u8], Manifest<'a>), ParseError<'a>>)
    ensures
        outcome(r) == spec_manifest(input@),
{
    let key: [u8; 5] = ['f' as u8, 'r' as u8, 'o' as u8, 'm' as u8, ':' as u8];
    assert(key@ =~= from_key());
    let (rest, _) = tag(input, &key, Expected::FromKey)?;
    let (rest, _) = space(rest)?;
    let (rest, text) = Manifest::parse_manifest(rest)?;
    let (rest, _) = line_feed(rest)?;
    Ok((rest, Manifest::from_text(text)))
}

} // verus!
