//! A token: one lexeme paired with the source location where it starts.

use vstd::prelude::*;

use crate::lexer::{clone_lexeme, Lexeme, SpecLexeme};
use crate::location::{Location, SpecLoc};

verus! {

/// Mathematical model of a [`Token`].
#[verifier::ext_equal]
pub ghost struct SpecToken {
    pub location: SpecLoc,
    pub lexeme: SpecLexeme,
}

/// One lexical unit together with its starting location.
#[derive(Debug)]
pub struct Token {
    pub location: Location,
    pub lexeme: Lexeme,
}

impl View for Token {
    type V = SpecToken;

    open spec fn view(&self) -> SpecToken {
        SpecToken { location: self.location@, lexeme: self.lexeme@ }
    }
}

impl Clone for Token {
    fn clone(&self) -> (r: Self)
        ensures
            r@ == self@,
    {
        let r = Token { location: self.location.clone(), lexeme: clone_lexeme(&self.lexeme) };
        proof {
            assert(r@ =~= self@);
        }
        r
    }
}

} // verus!
