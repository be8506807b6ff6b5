use vstd::prelude::*;

pub mod charclass;
pub mod error;
pub mod laws;
pub mod lexer;
pub mod rules;
pub mod scanner;
pub mod token;

pub use error::{Error, ErrorKind};
pub use lexer::Lexer;
pub use scanner::{Scanner, ScannerView};
pub use token::{Position, Token, TokenType, TokenView};

verus! {

/// Release number of this lexer.
pub const VERSION: &'static str = "0.1.0";

/// A one-line banner naming the compiler front end and its release.
pub fn version() -> (r: String)
    ensures
        r@ == "NovaScript Compiler "@ + VERSION@,
{
    let banner = String::from_str("NovaScript Compiler ");
    banner.concat(VERSION)
}

} // verus!
