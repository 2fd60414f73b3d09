//! Errors raised while compiling a pattern, outside of bracket expressions.

use vstd::prelude::*;
use vstd::string::StringExecFns;

verus! {

/// The ways in which compiling a pattern can fail, apart from bracket errors.
#[derive(Debug, PartialEq, Eq, Clone, Copy)]
pub enum ErrorRegex {
    /// A repetition suffix at the start of an alternative, or stacked on a
    /// token whose repetition was already fixed.
    RepeticionInvalida,
    /// The body of a `{...}` range is malformed, or its bounds are inverted.
    ContenidoInvalidoRepeticion,
    /// The pattern ends with an unescaped backslash.
    BarraInvertidaAlFinal,
    /// A `^` that is neither at the start of an alternative nor right after
    /// another `^`.
    ExpresionInvalidaAnclajeInicio,
}

impl ErrorRegex {
    /// A human-readable description of the error.
    pub fn mensaje(&self) -> (r: String)
        ensures
            *self is RepeticionInvalida ==> r@
                == "Metacaracter de repeticion al principio o luego de otro que no admite repeticion"@,
            *self is ContenidoInvalidoRepeticion ==> r@ == "Contenido de {} invalido"@,
            *self is BarraInvertidaAlFinal ==> r@ == "Barra invertida extra al final"@,
            *self is ExpresionInvalidaAnclajeInicio ==> r@
                == "Metacaracter de anclaje de inicio ^ en medio de una expresion"@,
    {
        match self {
            ErrorRegex::RepeticionInvalida => String::from_str(
                "Metacaracter de repeticion al principio o luego de otro que no admite repeticion",
            ),
            ErrorRegex::ContenidoInvalidoRepeticion => String::from_str("Contenido de {} invalido"),
            ErrorRegex::BarraInvertidaAlFinal => String::from_str(
                "Barra invertida extra al final",
            ),
            ErrorRegex::ExpresionInvalidaAnclajeInicio => String::from_str(
                "Metacaracter de anclaje de inicio ^ en medio de una expresion",
            ),
        }
    }
}

} // verus!
