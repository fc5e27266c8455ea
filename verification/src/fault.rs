//! Failures of the outside world, as plain values.

use crate::strings;
use crate::text;
use vstd::prelude::*;

verus! {

/// What sort of failure it was, as far as anything depends on it.
#[derive(Debug, Clone, Copy, PartialEq, Eq, Structural)]
pub enum FaultKind {
    NotFound,
    TimedOut,
    Interrupted,
    InvalidData,
    /// The input ended before what was expected of it.
    UnexpectedEof,
    Other,
}

/// A failed operation and what it says about itself.
#[derive(Debug, PartialEq, Eq)]
pub struct Fault {
    pub kind: FaultKind,
    pub text: String,
}

/// A failed operation, its text as a sequence of characters.
pub struct FaultView {
    pub kind: FaultKind,
    pub text: Seq<char>,
}

impl View for Fault {
    type V = FaultView;

    open spec fn view(&self) -> FaultView {
        FaultView { kind: self.kind, text: self.text@ }
    }
}

impl Fault {
    /// A failure of the given kind.
    pub fn new(kind: FaultKind, text: &str) -> (r: Fault)
        ensures
            r@ == (FaultView { kind, text: text@ }),
    {
        Fault { kind, text: strings::copy(text) }
    }

    /// A copy of the failure.
    pub fn copy(&self) -> (r: Fault)
        ensures
            r@ == self@,
    {
        Fault { kind: self.kind, text: strings::copy(self.text.as_str()) }
    }
}

} // verus!
