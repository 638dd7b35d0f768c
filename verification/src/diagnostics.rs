//! Diagnostics collected by the scanner and the parser, reported once per
//! error without halting where recovery is possible.

use vstd::prelude::*;

verus! {

/// A diagnostic: the source line it concerns and a message.
#[derive(Debug, PartialEq)]
pub struct Diagnostic {
    pub line: i32,
    pub message: String,
}

/// The mathematical view of a diagnostic.
pub struct DiagV {
    pub line: int,
    pub message: Seq<char>,
}

impl View for Diagnostic {
    type V = DiagV;

    open spec fn view(&self) -> DiagV {
        DiagV { line: self.line as int, message: self.message@ }
    }
}

impl Diagnostic {
    pub fn new(line: i32, message: String) -> (d: Diagnostic)
        ensures
            d@.line == line as int,
            d@.message == message@,
    {
        Diagnostic { line, message }
    }
}

} // verus!
