//! The diagnostic record that every phase reports: a source line, a location
//! tag (the offending lexeme), and a message.

use vstd::prelude::*;
use vstd::string::StringExecFns;
use crate::token::Token;

verus! {

#[derive(Debug, Clone, PartialEq, Eq)]
pub struct Error {
    pub line: u32,
    /// A location tag of the form ` at '<lexeme>'`.
    pub loc: String,
    pub msg: String,
}

impl Error {
    /// Builds a diagnostic pointing at the given token.
    pub fn from_token(t: &Token, msg: String) -> (r: Error)
        ensures
            r.line == t.line,
            r.loc@ == " at '"@ + t.lexeme@ + "'"@,
            r.msg@ == msg@,
    {
        let loc = String::from_str(" at '").concat(t.lexeme.as_str()).concat("'");
        Error { line: t.line, loc, msg }
    }
}

} // verus!
