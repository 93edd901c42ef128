//! The one error of the parser.

use crate::token::Span;
use vstd::prelude::*;

verus! {

/// A syntax error: a short message, the reason in words (what was expected),
/// and the part of the source text that is at fault.
#[derive(Debug, Clone, PartialEq)]
pub struct AmiError {
    pub msg: String,
    pub reason: String,
    pub range: Span,
}

/// The mathematical value of an [`AmiError`].
pub struct AmiErrorView {
    pub msg: Seq<char>,
    pub reason: Seq<char>,
    pub range: Span,
}

impl View for AmiError {
    type V = AmiErrorView;

    open spec fn view(&self) -> AmiErrorView {
        AmiErrorView { msg: self.msg@, reason: self.reason@, range: self.range }
    }
}

} // verus!
