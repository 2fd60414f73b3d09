//! The value of a token: what kind of atom it matches.

use vstd::prelude::*;
use vstd::string::StrSliceExecFns;
use crate::cadena::{largo_utf8, largo_utf8_de};
use crate::clase_caracter::{ClaseCaracter, clase_acepta, clase_acepta_caracter};

verus! {

/// The matchable content of a token: a literal character, the wildcard, one
/// of the two anchors, or a (possibly negated) bracket expression holding a
/// disjunction of character-class predicates.
#[derive(Debug, PartialEq, Eq, Clone)]
pub enum ValorRegexToken {
    Literal(char),
    Comodin,
    AnclajeInicio,
    AnclajeFinal,
    ExpresionBracket(Vec<ClaseCaracter>),
    ExpresionBracketNegada(Vec<ClaseCaracter>),
}

/// Some class of the list holds for the character.
pub open spec fn alguna_clase_acepta(clases: Seq<ClaseCaracter>, c: char) -> bool {
    exists|k: int| 0 <= k < clases.len() && clase_acepta(clases[k], c)
}

/// Whether a token value matches a single character.  Anchors match no
/// character at all.
pub open spec fn valor_acepta(v: ValorRegexToken, c: char) -> bool {
    match v {
        ValorRegexToken::Literal(l) => c == l,
        ValorRegexToken::Comodin => true,
        ValorRegexToken::AnclajeInicio => false,
        ValorRegexToken::AnclajeFinal => false,
        ValorRegexToken::ExpresionBracket(clases) => alguna_clase_acepta(clases@, c),
        ValorRegexToken::ExpresionBracketNegada(clases) => !alguna_clase_acepta(clases@, c),
    }
}

/// What a token value reports when matched against the first character of a
/// string: the UTF-8 width of that character when the value matches it, zero
/// otherwise or on an empty string.
pub open spec fn matcheo_valor(v: ValorRegexToken, s: Seq<char>) -> nat {
    if s.len() > 0 && valor_acepta(v, s[0]) {
        largo_utf8_de(s[0])
    } else {
        0
    }
}

/// Decides whether some class of the list holds for the character.
pub fn alguna_clase_acepta_caracter(clases: &Vec<ClaseCaracter>, c: char) -> (r: bool)
    ensures
        r == alguna_clase_acepta(clases@, c),
{
    let mut k: usize = 0;
    while k < clases.len()
        invariant
            k <= clases@.len(),
            forall|j: int| 0 <= j < k ==> !clase_acepta(clases@[j], c),
        decreases clases@.len() - k,
    {
        if clase_acepta_caracter(&clases[k], c) {
            return true;
        }
        k = k + 1;
    }
    false
}

/// Decides whether a token value matches a single character.
pub fn valor_acepta_caracter(v: &ValorRegexToken, c: char) -> (r: bool)
    ensures
        r == valor_acepta(*v, c),
{
    match v {
        ValorRegexToken::Literal(l) => *l == c,
        ValorRegexToken::Comodin => true,
        ValorRegexToken::AnclajeInicio => false,
        ValorRegexToken::AnclajeFinal => false,
        ValorRegexToken::ExpresionBracket(clases) => alguna_clase_acepta_caracter(clases, c),
        ValorRegexToken::ExpresionBracketNegada(clases) => !alguna_clase_acepta_caracter(
            clases,
            c,
        ),
    }
}

/// UTF-8 width of the first character of the string when it equals the
/// literal, else zero.
pub fn matchear_con_literal(literal: char, valor: &str) -> (r: usize)
    ensures
        r == matcheo_valor(ValorRegexToken::Literal(literal), valor@),
{
    if valor.unicode_len() > 0 && valor.get_char(0) == literal {
        largo_utf8(literal)
    } else {
        0
    }
}

/// UTF-8 width of the first character of the string, zero on an empty string.
pub fn matchear_con_comodin(valor: &str) -> (r: usize)
    ensures
        r == matcheo_valor(ValorRegexToken::Comodin, valor@),
{
    if valor.unicode_len() > 0 {
        largo_utf8(valor.get_char(0))
    } else {
        0
    }
}

/// An anchor consumes no character at all.
pub fn matchear_con_anclaje() -> (r: usize)
    ensures
        r == 0,
{
    0
}

/// UTF-8 width of the first character when some class of the list holds for
/// it, else zero.
pub fn matchear_con_expresion_bracket(clases_caracter: &Vec<ClaseCaracter>, valor: &str) -> (r:
    usize)
    ensures
        r == matcheo_valor(ValorRegexToken::ExpresionBracket(*clases_caracter), valor@),
{
    if valor.unicode_len() > 0 {
        let c = valor.get_char(0);
        if alguna_clase_acepta_caracter(clases_caracter, c) {
            largo_utf8(c)
        } else {
            0
        }
    } else {
        0
    }
}

/// UTF-8 width of the first character when no class of the list holds for it,
/// else zero.
pub fn matchear_con_expresion_bracket_negada(clases_caracter: &Vec<ClaseCaracter>, valor: &str) -> (
    r: usize)
    ensures
        r == matcheo_valor(ValorRegexToken::ExpresionBracketNegada(*clases_caracter), valor@),
{
    if valor.unicode_len() > 0 {
        let c = valor.get_char(0);
        if alguna_clase_acepta_caracter(clases_caracter, c) {
            0
        } else {
            largo_utf8(c)
        }
    } else {
        0
    }
}

impl ValorRegexToken {
    /// Matches the token value against the first character of a string,
    /// reporting the number of bytes consumed: the UTF-8 width of that
    /// character on success, zero on failure or on an empty string.
    pub fn matchea(&self, valor: &str) -> (r: usize)
        ensures
            r == matcheo_valor(*self, valor@),
    {
        if valor.unicode_len() > 0 {
            let c = valor.get_char(0);
            if valor_acepta_caracter(self, c) {
                largo_utf8(c)
            } else {
                0
            }
        } else {
            0
        }
    }
}

} // verus!
