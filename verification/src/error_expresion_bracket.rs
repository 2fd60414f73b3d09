//! Errors raised while building a token from a bracket expression.

use vstd::prelude::*;
use vstd::string::StringExecFns;

verus! {

/// The ways in which parsing a bracket expression can fail.
#[derive(Debug, PartialEq, Eq, Clone, Copy)]
pub enum ErrorExpresionBracket {
    /// The bracket never closes, or its body is empty.
    BracketNoMatchea,
    /// A character-class name is not one of the seven recognized names.
    NombreClaseInvalido,
    /// A body of the form `:name:` was written without its outer brackets.
    SintaxisClaseInvalida,
}

impl ErrorExpresionBracket {
    /// A human-readable description of the error.
    pub fn mensaje(&self) -> (r: String)
        ensures
            *self is BracketNoMatchea ==> r@ == "unmatched [, [^ or [:"@,
            *self is NombreClaseInvalido ==> r@ == "Nombre de clase de caracter invalido"@,
            *self is SintaxisClaseInvalida ==> r@
                == "La sintaxis de la clase de caracteres es [[:space:]], no [:space:]"@,
    {
        match self {
            ErrorExpresionBracket::BracketNoMatchea => String::from_str("unmatched [, [^ or [:"),
            ErrorExpresionBracket::NombreClaseInvalido => String::from_str(
                "Nombre de clase de caracter invalido",
            ),
            ErrorExpresionBracket::SintaxisClaseInvalida => String::from_str(
                "La sintaxis de la clase de caracteres es [[:space:]], no [:space:]",
            ),
        }
    }
}

} // verus!
