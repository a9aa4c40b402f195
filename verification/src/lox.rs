//! Interpreter session state: remembers whether a lexical error has been
//! reported during the current run.  Reading input and printing
//! diagnostics are the caller's business; only the error flag lives here.

use vstd::prelude::*;

verus! {

/// Session state for one interpreter run.
pub struct Lox {
    had_error: bool,
}

impl Lox {
    /// Whether an error has been recorded since construction (or since the
    /// flag was last cleared).
    pub closed spec fn spec_had_error(&self) -> bool {
        self.had_error
    }

    /// A fresh session: no error recorded yet.
    pub fn new() -> (l: Lox)
        ensures
            !l.spec_had_error(),
    {
        Lox { had_error: false }
    }

    /// Reads the error flag.
    pub fn had_error(&self) -> (r: bool)
        ensures
            r == self.spec_had_error(),
    {
        self.had_error
    }

    /// Records that a diagnostic has been issued for this run.
    pub fn record_error(&mut self)
        ensures
            final(self).spec_had_error(),
    {
        self.had_error = true;
    }

    /// Forgets any recorded error, as an interactive session does before
    /// the next input line.
    pub fn clear_error(&mut self)
        ensures
            !final(self).spec_had_error(),
    {
        self.had_error = false;
    }
}

} // verus!
