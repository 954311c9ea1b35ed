//! The state a driver keeps across runs: whether an error was reported.
use vstd::prelude::*;
use crate::error::LexError;
use crate::scan_spec::{scan, scan_from};
use crate::scanner::{after, Scanner};
use crate::token::{token_models, Token, TokenModel};

verus! {

/// The outcome of a scan, as mathematical values.
pub open spec fn scan_outcome(r: Result<Vec<Token>, LexError>) -> Result<
    Seq<TokenModel>,
    crate::error::LexErrorModel,
> {
    match r {
        Ok(ts) => Ok(token_models(ts@)),
        Err(e) => Err(e@),
    }
}

/// Runs source text through the scanner and remembers whether it failed.
pub struct Lox {
    had_error: bool,
}

impl Default for Lox {
    fn default() -> (r: Lox)
        ensures
            !r.failed(),
    {
        Lox { had_error: false }
    }
}

impl Lox {
    /// An error was reported since the last reset.
    pub closed spec fn failed(&self) -> bool {
        self.had_error
    }

    pub fn new() -> (r: Lox)
        ensures
            !r.failed(),
    {
        Lox { had_error: false }
    }

    pub fn had_error(&self) -> (r: bool)
        ensures
            r == self.failed(),
    {
        self.had_error
    }

    /// Forgets earlier errors, as an interactive session does after each line.
    pub fn reset_error(&mut self)
        ensures
            !final(self).failed(),
    {
        self.had_error = false;
    }

    /// Scans `source`; an error is remembered.
    pub fn run(&mut self, source: String) -> (r: Result<Vec<Token>, LexError>)
        requires
            source@.len() < usize::MAX,
        ensures
            scan_outcome(r) == scan(source@),
            final(self).failed() == (old(self).failed() || r is Err),
    {
        let mut scanner = Scanner::new(source);
        let scanned = match scanner.scan_tokens() {
            Ok(_) => Ok(()),
            Err(e) => Err(e),
        };
        proof {
            match scan_from(source@, 0, 1) {
                Ok(ts) => {
                    assert(Seq::<TokenModel>::empty() + ts =~= ts);
                },
                Err(_) => {},
            }
        }
        match scanned {
            Ok(()) => Ok(scanner.into_tokens()),
            Err(e) => {
                self.had_error = true;
                Err(e)
            },
        }
    }
}

} // verus!
