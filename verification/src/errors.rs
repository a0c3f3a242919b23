//! Error values of the citation pipeline. Every fatal condition names the
//! offending document path and the citation or field involved; rendering
//! the values into printed lines is left to the caller.

use vstd::prelude::*;

verus! {

/// Validation errors when resolving the citations of one file.
#[derive(Debug)]
pub enum CitationError {
    /// Two or more possible matches to a single citation, which would need
    /// disambiguation through a unique key rather than an inline phrase.
    AmbiguousMatch(String),
    /// Citations that found no match in the source bibliography.
    UnmatchedCitations(Vec<String>),
}

/// The view of a [`CitationError`].
#[verifier::ext_equal]
pub enum CitationErrorV {
    AmbiguousMatch(Seq<char>),
    UnmatchedCitations(Seq<Seq<char>>),
}

impl View for CitationError {
    type V = CitationErrorV;

    open spec fn view(&self) -> CitationErrorV {
        match self {
            CitationError::AmbiguousMatch(details) => CitationErrorV::AmbiguousMatch(details@),
            CitationError::UnmatchedCitations(citations) => CitationErrorV::UnmatchedCitations(
                citations.deep_view(),
            ),
        }
    }
}

/// What failed while verifying one document; each variant carries the
/// document's path.
#[derive(Debug)]
pub enum VerifyError {
    /// A citation lacks a detectable year token.
    MalformedCitation { path: String, citation: String },
    /// The document body has improperly nested or unclosed parentheses.
    UnbalancedParentheses { path: String },
    /// Citations that resolved to no bibliography entry.
    UnmatchedCitations { path: String, citations: Vec<String> },
    /// A document marked as an article lacks its index title.
    MissingMetadataField { path: String },
}

/// The view of a [`VerifyError`].
#[verifier::ext_equal]
pub enum VerifyErrorV {
    MalformedCitation { path: Seq<char>, citation: Seq<char> },
    UnbalancedParentheses { path: Seq<char> },
    UnmatchedCitations { path: Seq<char>, citations: Seq<Seq<char>> },
    MissingMetadataField { path: Seq<char> },
}

impl View for VerifyError {
    type V = VerifyErrorV;

    open spec fn view(&self) -> VerifyErrorV {
        match self {
            VerifyError::MalformedCitation { path, citation } => VerifyErrorV::MalformedCitation {
                path: path@,
                citation: citation@,
            },
            VerifyError::UnbalancedParentheses { path } => VerifyErrorV::UnbalancedParentheses {
                path: path@,
            },
            VerifyError::UnmatchedCitations { path, citations } => VerifyErrorV::UnmatchedCitations {
                path: path@,
                citations: citations.deep_view(),
            },
            VerifyError::MissingMetadataField { path } => VerifyErrorV::MissingMetadataField {
                path: path@,
            },
        }
    }
}

} // verus!
