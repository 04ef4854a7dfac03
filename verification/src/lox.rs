//! The error sink: records every lexical error without ever halting a scan.

use vstd::prelude::*;

verus! {

/// Specification-level image of a recorded error.
pub ghost struct ErrSpec {
    pub line: int,
    pub message: Seq<char>,
}

/// One recorded lexical error: the 1-based source line where it was detected
/// and the diagnostic message.
#[derive(Debug, PartialEq, Eq)]
pub struct LexError {
    pub line: usize,
    pub message: String,
}

impl View for LexError {
    type V = ErrSpec;

    open spec fn view(&self) -> ErrSpec {
        ErrSpec { line: self.line as int, message: self.message@ }
    }
}

/// The error log as specification values.
pub open spec fn errs(v: Seq<LexError>) -> Seq<ErrSpec> {
    v.map_values(|e: LexError| e@)
}

/// The session state the driver inspects after a scan: whether any error was
/// reported, and the errors themselves in the order they were reported.
/// The scanner only ever appends to the log; clearing the flag between
/// independent scans is the driver's business.
#[derive(Debug)]
pub struct Lox {
    pub had_error: bool,
    pub errors: Vec<LexError>,
}

impl Lox {
    /// A fresh session: no error reported yet.
    pub fn new() -> (r: Lox)
        ensures
            !r.had_error,
            r.errors@ == Seq::<LexError>::empty(),
    {
        Lox { had_error: false, errors: Vec::new() }
    }

    /// Records a lexical error at `line`, appending it to the log and raising
    /// the session flag. Never fails and never stops the caller.
    pub fn error(&mut self, line: usize, message: &str)
        ensures
            final(self).had_error,
            errs(final(self).errors@) == errs(old(self).errors@) + seq![
                (ErrSpec { line: line as int, message: message@ }),
            ],
    {
        self.had_error = true;
        self.errors.push(LexError { line, message: message.to_owned() });
        proof {
            assert(errs(self.errors@) =~= errs(old(self).errors@) + seq![
                (ErrSpec { line: line as int, message: message@ }),
            ]);
        }
    }
}

} // verus!
