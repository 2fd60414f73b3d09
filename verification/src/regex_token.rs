//! A token of a compiled expression: a value plus its repetition range.

use vstd::prelude::*;
use crate::repeticion_regex_token::RepeticionRegexToken;
use crate::valor_regex_token::ValorRegexToken;

verus! {

/// The repetition range `(0, 0)`, which marks a token that the matching loop
/// must never evaluate as an atom; the two anchors are built with it.
pub open spec fn repeticion_nula(rep: RepeticionRegexToken) -> bool {
    rep.min == Some(0usize) && rep.max == Some(0usize)
}

/// A token: a value together with a repetition range that may be modified
/// exactly once.  Tokens built with the null range `(0, 0)` are locked from
/// birth.
#[derive(Debug, PartialEq, Eq, Clone)]
pub struct RegexToken {
    pub valor: ValorRegexToken,
    pub repeticion: RepeticionRegexToken,
    pub repeticion_modificable: bool,
}

impl RegexToken {
    /// Builds a token from a value and a repetition range.  The token is
    /// modifiable unless the range is the null range `(0, 0)`.
    pub fn new(valor: ValorRegexToken, repeticion: RepeticionRegexToken) -> (r: Self)
        ensures
            r.valor == valor,
            r.repeticion == repeticion,
            r.repeticion_modificable == !repeticion_nula(repeticion),
    {
        let modificable = match (repeticion.min, repeticion.max) {
            (Some(0), Some(0)) => false,
            _ => true,
        };
        Self { valor, repeticion, repeticion_modificable: modificable }
    }

    /// Replaces the repetition range, provided it was never replaced before;
    /// a successful replacement locks the token.  Reports whether the
    /// replacement happened.
    pub fn modificar_repeticion(&mut self, new_repeticion: RepeticionRegexToken) -> (r: bool)
        ensures
            r == old(self).repeticion_modificable,
            old(self).repeticion_modificable ==> *final(self) == (RegexToken {
                repeticion: new_repeticion,
                repeticion_modificable: false,
                ..*old(self)
            }),
            !old(self).repeticion_modificable ==> *final(self) == *old(self),
    {
        if !self.repeticion_modificable {
            false
        } else {
            self.repeticion = new_repeticion;
            self.repeticion_modificable = false;
            true
        }
    }

    /// The lower bound of the token's repetition range.
    pub fn min_repeticiones(&self) -> (r: Option<usize>)
        ensures
            r == self.repeticion.min,
    {
        self.repeticion.min()
    }

    /// The upper bound of the token's repetition range.
    pub fn max_repeticiones(&self) -> (r: Option<usize>)
        ensures
            r == self.repeticion.max,
    {
        self.repeticion.max()
    }
}

} // verus!
