//! Why sniffing can fail.

use vstd::prelude::*;

verus! {

/// Why no metadata could be produced. Every failure is final: nothing is
/// returned beside it.
#[derive(Clone, Debug, PartialEq, Eq)]
pub enum SniffError {
    /// A sampled line is not valid UTF-8.
    DecodeError,
    /// The sample holds no line.
    EmptyInput,
    /// No candidate delimiter splits enough of the sampled lines alike.
    NoDelimiterFound {
        /// The candidates that were tried, in their order of priority.
        attempted: Vec<u8>,
    },
}

/// The model of a [`SniffError`].
pub enum SniffErrorView {
    DecodeError,
    EmptyInput,
    NoDelimiterFound { attempted: Seq<u8> },
}

impl View for SniffError {
    type V = SniffErrorView;

    open spec fn view(&self) -> SniffErrorView {
        match self {
            SniffError::DecodeError => SniffErrorView::DecodeError,
            SniffError::EmptyInput => SniffErrorView::EmptyInput,
            SniffError::NoDelimiterFound { attempted } => SniffErrorView::NoDelimiterFound {
                attempted: attempted@,
            },
        }
    }
}

} // verus!
