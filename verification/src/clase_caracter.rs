//! Character-class predicates used inside bracket expressions.

use vstd::prelude::*;
use vstd::string::StrSliceExecFns;
use crate::cadena::{largo_utf8, largo_utf8_de, cadenas_iguales};
use crate::error_expresion_bracket::ErrorExpresionBracket;

verus! {

/// A predicate over a single character: one literal character, or one of the
/// seven recognized ASCII classes.
#[derive(Debug, PartialEq, Eq, Clone, Copy)]
pub enum ClaseCaracter {
    Literal(char),
    Alfanumerico,
    Alfabetico,
    Digito,
    Minuscula,
    Mayuscula,
    Espacio,
    Puntuacion,
}

/// The character is an ASCII decimal digit.
pub open spec fn es_digito(c: char) -> bool {
    0x30 <= (c as u32) && (c as u32) <= 0x39
}

/// The character is an ASCII lowercase letter.
pub open spec fn es_minuscula(c: char) -> bool {
    0x61 <= (c as u32) && (c as u32) <= 0x7a
}

/// The character is an ASCII uppercase letter.
pub open spec fn es_mayuscula(c: char) -> bool {
    0x41 <= (c as u32) && (c as u32) <= 0x5a
}

/// The character is an ASCII letter.
pub open spec fn es_alfabetico(c: char) -> bool {
    es_minuscula(c) || es_mayuscula(c)
}

/// The character is an ASCII letter or digit.
pub open spec fn es_alfanumerico(c: char) -> bool {
    es_alfabetico(c) || es_digito(c)
}

/// The character is ASCII whitespace: space, tab, line feed, form feed or
/// carriage return.
pub open spec fn es_espacio(c: char) -> bool {
    c == ' ' || c == '\t' || c == '\n' || (c as u32) == 0x0c || c == '\r'
}

/// The character is ASCII punctuation.
pub open spec fn es_puntuacion(c: char) -> bool {
    (0x21 <= (c as u32) && (c as u32) <= 0x2f) || (0x3a <= (c as u32) && (c as u32) <= 0x40) || (
    0x5b <= (c as u32) && (c as u32) <= 0x60) || (0x7b <= (c as u32) && (c as u32) <= 0x7e)
}

/// Whether a character-class predicate holds for a character.
pub open spec fn clase_acepta(cl: ClaseCaracter, c: char) -> bool {
    match cl {
        ClaseCaracter::Literal(l) => c == l,
        ClaseCaracter::Alfanumerico => es_alfanumerico(c),
        ClaseCaracter::Alfabetico => es_alfabetico(c),
        ClaseCaracter::Digito => es_digito(c),
        ClaseCaracter::Minuscula => es_minuscula(c),
        ClaseCaracter::Mayuscula => es_mayuscula(c),
        ClaseCaracter::Espacio => es_espacio(c),
        ClaseCaracter::Puntuacion => es_puntuacion(c),
    }
}

/// The class that a name designates, if the name is one of the seven
/// recognized ones.
pub open spec fn clase_de_nombre(nombre: Seq<char>) -> Option<ClaseCaracter> {
    if nombre == "alnum"@ {
        Some(ClaseCaracter::Alfanumerico)
    } else if nombre == "alpha"@ {
        Some(ClaseCaracter::Alfabetico)
    } else if nombre == "digit"@ {
        Some(ClaseCaracter::Digito)
    } else if nombre == "lower"@ {
        Some(ClaseCaracter::Minuscula)
    } else if nombre == "upper"@ {
        Some(ClaseCaracter::Mayuscula)
    } else if nombre == "space"@ {
        Some(ClaseCaracter::Espacio)
    } else if nombre == "punct"@ {
        Some(ClaseCaracter::Puntuacion)
    } else {
        None
    }
}

/// What a class reports when matched against the first character of a string:
/// the UTF-8 width of that character when the predicate holds, zero otherwise.
pub open spec fn matcheo_clase(cl: ClaseCaracter, s: Seq<char>) -> nat {
    if s.len() > 0 && clase_acepta(cl, s[0]) {
        largo_utf8_de(s[0])
    } else {
        0
    }
}

/// Decides whether a character-class predicate holds for a character.
pub fn clase_acepta_caracter(cl: &ClaseCaracter, c: char) -> (r: bool)
    ensures
        r == clase_acepta(*cl, c),
{
    match cl {
        ClaseCaracter::Literal(l) => *l == c,
        ClaseCaracter::Alfanumerico => matchear_con_alfanumerico(c) > 0,
        ClaseCaracter::Alfabetico => matchear_con_alfabetico(c) > 0,
        ClaseCaracter::Digito => matchear_con_digito(c) > 0,
        ClaseCaracter::Minuscula => matchear_con_minuscula(c) > 0,
        ClaseCaracter::Mayuscula => matchear_con_mayuscula(c) > 0,
        ClaseCaracter::Espacio => matchear_con_espacio(c) > 0,
        ClaseCaracter::Puntuacion => matchear_con_puntuacion(c) > 0,
    }
}

/// UTF-8 width of the character when it is ASCII alphanumeric, else zero.
pub fn matchear_con_alfanumerico(c: char) -> (r: usize)
    ensures
        r == (if es_alfanumerico(c) {
            largo_utf8_de(c)
        } else {
            0
        }),
{
    let u = c as u32;
    if (0x30 <= u && u <= 0x39) || (0x41 <= u && u <= 0x5a) || (0x61 <= u && u <= 0x7a) {
        largo_utf8(c)
    } else {
        0
    }
}

/// UTF-8 width of the character when it is an ASCII letter, else zero.
pub fn matchear_con_alfabetico(c: char) -> (r: usize)
    ensures
        r == (if es_alfabetico(c) {
            largo_utf8_de(c)
        } else {
            0
        }),
{
    let u = c as u32;
    if (0x41 <= u && u <= 0x5a) || (0x61 <= u && u <= 0x7a) {
        largo_utf8(c)
    } else {
        0
    }
}

/// UTF-8 width of the character when it is an ASCII digit, else zero.
pub fn matchear_con_digito(c: char) -> (r: usize)
    ensures
        r == (if es_digito(c) {
            largo_utf8_de(c)
        } else {
            0
        }),
{
    let u = c as u32;
    if 0x30 <= u && u <= 0x39 {
        largo_utf8(c)
    } else {
        0
    }
}

/// UTF-8 width of the character when it is an ASCII lowercase letter, else
/// zero.
pub fn matchear_con_minuscula(c: char) -> (r: usize)
    ensures
        r == (if es_minuscula(c) {
            largo_utf8_de(c)
        } else {
            0
        }),
{
    let u = c as u32;
    if 0x61 <= u && u <= 0x7a {
        largo_utf8(c)
    } else {
        0
    }
}

/// UTF-8 width of the character when it is an ASCII uppercase letter, else
/// zero.
pub fn matchear_con_mayuscula(c: char) -> (r: usize)
    ensures
        r == (if es_mayuscula(c) {
            largo_utf8_de(c)
        } else {
            0
        }),
{
    let u = c as u32;
    if 0x41 <= u && u <= 0x5a {
        largo_utf8(c)
    } else {
        0
    }
}

/// UTF-8 width of the character when it is ASCII whitespace, else zero.
pub fn matchear_con_espacio(c: char) -> (r: usize)
    ensures
        r == (if es_espacio(c) {
            largo_utf8_de(c)
        } else {
            0
        }),
{
    let u = c as u32;
    if u == 0x20 || u == 0x09 || u == 0x0a || u == 0x0c || u == 0x0d {
        largo_utf8(c)
    } else {
        0
    }
}

/// UTF-8 width of the character when it is ASCII punctuation, else zero.
pub fn matchear_con_puntuacion(c: char) -> (r: usize)
    ensures
        r == (if es_puntuacion(c) {
            largo_utf8_de(c)
        } else {
            0
        }),
{
    let u = c as u32;
    if (0x21 <= u && u <= 0x2f) || (0x3a <= u && u <= 0x40) || (0x5b <= u && u <= 0x60) || (0x7b
        <= u && u <= 0x7e) {
        largo_utf8(c)
    } else {
        0
    }
}

/// UTF-8 width of the character when it equals the literal, else zero.
pub fn matchear_con_literal(l: char, c: char) -> (r: usize)
    ensures
        r == (if c == l {
            largo_utf8_de(c)
        } else {
            0
        }),
{
    if c == l {
        largo_utf8(c)
    } else {
        0
    }
}

impl ClaseCaracter {
    /// Builds the class that a name designates; any unrecognized name is
    /// rejected.
    pub fn new(nombre_clase: &str) -> (r: Result<Self, ErrorExpresionBracket>)
        ensures
            r == (match clase_de_nombre(nombre_clase@) {
                Some(cl) => Result::<Self, ErrorExpresionBracket>::Ok(cl),
                None => Result::<Self, ErrorExpresionBracket>::Err(
                    ErrorExpresionBracket::NombreClaseInvalido,
                ),
            }),
    {
        if cadenas_iguales(nombre_clase, "alnum") {
            Ok(Self::Alfanumerico)
        } else if cadenas_iguales(nombre_clase, "alpha") {
            Ok(Self::Alfabetico)
        } else if cadenas_iguales(nombre_clase, "digit") {
            Ok(Self::Digito)
        } else if cadenas_iguales(nombre_clase, "lower") {
            Ok(Self::Minuscula)
        } else if cadenas_iguales(nombre_clase, "upper") {
            Ok(Self::Mayuscula)
        } else if cadenas_iguales(nombre_clase, "space") {
            Ok(Self::Espacio)
        } else if cadenas_iguales(nombre_clase, "punct") {
            Ok(Self::Puntuacion)
        } else {
            Err(ErrorExpresionBracket::NombreClaseInvalido)
        }
    }

    /// Matches the class against the first character of a string, reporting
    /// the number of bytes consumed: the UTF-8 width of that character on
    /// success, zero on failure or on an empty string.
    pub fn matchea(&self, valor: &str) -> (r: usize)
        ensures
            r == matcheo_clase(*self, valor@),
    {
        if valor.unicode_len() > 0 {
            let c = valor.get_char(0);
            if clase_acepta_caracter(self, c) {
                largo_utf8(c)
            } else {
                0
            }
        } else {
            0
        }
    }
}

} // verus!
