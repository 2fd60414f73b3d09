//! Compilation of patterns and the public face of the engine.
//!
//! A pattern is compiled, character by character, into a list of
//! alternatives, each a list of tokens.  The compiler is specified by
//! [`compila`], a recursive function over the pattern characters whose
//! result is stated in a ghost mirror of the token type (`TokenEspec`,
//! carrying sequences where the executable tokens carry vectors); `new` is
//! proved to return exactly the alternatives that `compila` describes, and
//! `matchea` to report whether any alternative matches per the backtracking
//! machine.

use vstd::prelude::*;
use crate::cadena::{a_caracteres, caracter_de, copia_caracter};
use crate::clase_caracter::ClaseCaracter;
use crate::error_expresion_bracket::ErrorExpresionBracket;
use crate::error_regex::ErrorRegex;
use crate::expresion::Expresion;
use crate::expresion_bracket::{
    lema_escanea_bracket_cota, nuevo_token_expresion_bracket, pos_tras_bracket, resultado_bracket,
};
use crate::iterador_vec::{IteradorVecHaciaAtras, lema_retrocede_n_exacta};
use crate::maquina::expresion_matchea;
use crate::rango_repeticion::{
    EscaneoRango, escanea_rango, lema_escanea_rango_cota, obtener_repeticion,
    pos_tras_repeticion, resultado_repeticion,
};
use crate::regex_token::RegexToken;
use crate::repeticion_regex_token::RepeticionRegexToken;
use crate::valor_regex_token::ValorRegexToken;

verus! {

/// A compiled regular expression: an ordered, non-empty list of
/// alternatives.
#[derive(Debug)]
pub struct Regex {
    pub expresiones: Vec<Expresion>,
}

/// The ghost mirror of a token value: as `ValorRegexToken`, with the
/// predicates of a bracket expression held as a sequence.
pub enum ValorEspec {
    Literal(char),
    Comodin,
    AnclajeInicio,
    AnclajeFinal,
    ExpresionBracket(Seq<ClaseCaracter>),
    ExpresionBracketNegada(Seq<ClaseCaracter>),
}

/// The ghost mirror of a token.
pub struct TokenEspec {
    pub valor: ValorEspec,
    pub repeticion: RepeticionRegexToken,
    pub repeticion_modificable: bool,
}

/// The ghost mirror of a token value.
pub open spec fn modelo_valor(v: ValorRegexToken) -> ValorEspec {
    match v {
        ValorRegexToken::Literal(c) => ValorEspec::Literal(c),
        ValorRegexToken::Comodin => ValorEspec::Comodin,
        ValorRegexToken::AnclajeInicio => ValorEspec::AnclajeInicio,
        ValorRegexToken::AnclajeFinal => ValorEspec::AnclajeFinal,
        ValorRegexToken::ExpresionBracket(clases) => ValorEspec::ExpresionBracket(clases@),
        ValorRegexToken::ExpresionBracketNegada(clases) => ValorEspec::ExpresionBracketNegada(
            clases@,
        ),
    }
}

/// The ghost mirror of a token.
pub open spec fn modelo_token(t: RegexToken) -> TokenEspec {
    TokenEspec {
        valor: modelo_valor(t.valor),
        repeticion: t.repeticion,
        repeticion_modificable: t.repeticion_modificable,
    }
}

/// The ghost mirror of a token list.
pub open spec fn modelo_tokens(ts: Seq<RegexToken>) -> Seq<TokenEspec> {
    ts.map_values(|t: RegexToken| modelo_token(t))
}

/// The ghost mirror of a list of alternatives.
pub open spec fn modelo_expresiones(es: Seq<Expresion>) -> Seq<Seq<TokenEspec>> {
    es.map_values(|e: Expresion| modelo_tokens(e.tokens@))
}

/// The token a literal character compiles to.
pub open spec fn espec_literal(c: char) -> TokenEspec {
    TokenEspec {
        valor: ValorEspec::Literal(c),
        repeticion: RepeticionRegexToken { min: Some(1usize), max: Some(1usize) },
        repeticion_modificable: true,
    }
}

/// The token the wildcard compiles to.
pub open spec fn espec_comodin() -> TokenEspec {
    TokenEspec {
        valor: ValorEspec::Comodin,
        repeticion: RepeticionRegexToken { min: Some(1usize), max: Some(1usize) },
        repeticion_modificable: true,
    }
}

/// The token a start anchor compiles to: the null repetition, locked.
pub open spec fn espec_anclaje_inicio() -> TokenEspec {
    TokenEspec {
        valor: ValorEspec::AnclajeInicio,
        repeticion: RepeticionRegexToken { min: Some(0usize), max: Some(0usize) },
        repeticion_modificable: false,
    }
}

/// The token an end anchor compiles to: the null repetition, locked.
pub open spec fn espec_anclaje_final() -> TokenEspec {
    TokenEspec {
        valor: ValorEspec::AnclajeFinal,
        repeticion: RepeticionRegexToken { min: Some(0usize), max: Some(0usize) },
        repeticion_modificable: false,
    }
}

/// The token a bracket expression compiles to.
pub open spec fn espec_bracket(par: (bool, Seq<ClaseCaracter>)) -> TokenEspec {
    TokenEspec {
        valor: if par.0 {
            ValorEspec::ExpresionBracketNegada(par.1)
        } else {
            ValorEspec::ExpresionBracket(par.1)
        },
        repeticion: RepeticionRegexToken { min: Some(1usize), max: Some(1usize) },
        repeticion_modificable: true,
    }
}

/// Errors of compilation: either a pattern error or a bracket error.
#[derive(Debug, PartialEq, Eq, Clone, Copy)]
pub enum ErrorCompilacion {
    Regex(ErrorRegex),
    Bracket(ErrorExpresionBracket),
}

/// What compiling the pattern from position `j` onwards yields, given the
/// tokens of the open alternative and the alternatives already closed.
/// Each character either extends the open alternative, modifies the
/// repetition of its last token, closes it at a `|`, or fails.
pub open spec fn compila_desde(
    cs: Seq<char>,
    j: int,
    tokens: Seq<TokenEspec>,
    exprs: Seq<Seq<TokenEspec>>,
) -> Result<Seq<Seq<TokenEspec>>, ErrorCompilacion>
    decreases cs.len() - j,
        via compila_decrece
{
    if j < 0 || j >= cs.len() {
        Ok(exprs.push(tokens))
    } else {
        let c = cs[j];
        if c == '?' || c == '*' || c == '+' || c == '{' {
            match resultado_repeticion(c, cs, j + 1) {
                Err(e) => Err(ErrorCompilacion::Regex(e)),
                Ok(Some(rep)) => {
                    if tokens.len() == 0 {
                        Err(ErrorCompilacion::Regex(ErrorRegex::RepeticionInvalida))
                    } else if !tokens.last().repeticion_modificable {
                        Err(ErrorCompilacion::Regex(ErrorRegex::RepeticionInvalida))
                    } else {
                        compila_desde(
                            cs,
                            pos_tras_repeticion(c, cs, j + 1) + 1,
                            tokens.update(
                                tokens.len() - 1,
                                TokenEspec {
                                    valor: tokens.last().valor,
                                    repeticion: rep,
                                    repeticion_modificable: false,
                                },
                            ),
                            exprs,
                        )
                    }
                },
                Ok(None) => compila_desde(cs, j + 1, tokens.push(espec_literal('{')), exprs),
            }
        } else if c == '|' {
            compila_desde(cs, j + 1, Seq::empty(), exprs.push(tokens))
        } else if c == '.' {
            compila_desde(cs, j + 1, tokens.push(espec_comodin()), exprs)
        } else if c == '\\' {
            if j + 1 >= cs.len() {
                Err(ErrorCompilacion::Regex(ErrorRegex::BarraInvertidaAlFinal))
            } else {
                compila_desde(cs, j + 2, tokens.push(espec_literal(cs[j + 1])), exprs)
            }
        } else if c == '^' {
            if j == 0 || cs[j - 1] == '|' {
                compila_desde(cs, j + 1, tokens.push(espec_anclaje_inicio()), exprs)
            } else if cs[j - 1] == '^' {
                compila_desde(cs, j + 1, tokens, exprs)
            } else {
                Err(ErrorCompilacion::Regex(ErrorRegex::ExpresionInvalidaAnclajeInicio))
            }
        } else if c == '$' {
            compila_desde(cs, j + 1, tokens.push(espec_anclaje_final()), exprs)
        } else if c == '[' {
            match resultado_bracket(cs, j + 1) {
                Err(e) => Err(ErrorCompilacion::Bracket(e)),
                Ok(par) => compila_desde(
                    cs,
                    pos_tras_bracket(cs, j + 1) + 1,
                    tokens.push(espec_bracket(par)),
                    exprs,
                ),
            }
        } else {
            compila_desde(cs, j + 1, tokens.push(espec_literal(c)), exprs)
        }
    }
}

#[via_fn]
proof fn compila_decrece(cs: Seq<char>, j: int, tokens: Seq<TokenEspec>, exprs: Seq<
    Seq<TokenEspec>,
>) {
    if 0 <= j && j < cs.len() {
        if cs[j] == '{' {
            lema_escanea_rango_cota(cs, j + 1, 0);
        }
        if cs[j] == '[' {
            lema_escanea_bracket_cota(cs, j + 1, j + 1, false);
        }
    }
}

/// What compiling a whole pattern yields.
pub open spec fn compila(cs: Seq<char>) -> Result<Seq<Seq<TokenEspec>>, ErrorCompilacion> {
    compila_desde(cs, 0, Seq::empty(), Seq::empty())
}

/// Whether some alternative of the list matches the candidate.
pub open spec fn regex_matchea(es: Seq<Expresion>, s: Seq<char>) -> bool {
    exists|k: int| 0 <= k < es.len() && expresion_matchea(es[k].tokens@, s)
}

/// Mapping a token list to its mirror commutes with appending a token.
pub proof fn lema_modelo_push(ts: Seq<RegexToken>, t: RegexToken)
    ensures
        modelo_tokens(ts.push(t)) == modelo_tokens(ts).push(modelo_token(t)),
{
    assert(modelo_tokens(ts.push(t)) =~= modelo_tokens(ts).push(modelo_token(t)));
}

/// Mapping a token list to its mirror commutes with replacing a token.
pub proof fn lema_modelo_update(ts: Seq<RegexToken>, k: int, t: RegexToken)
    requires
        0 <= k < ts.len(),
    ensures
        modelo_tokens(ts.update(k, t)) == modelo_tokens(ts).update(k, modelo_token(t)),
{
    assert(modelo_tokens(ts.update(k, t)) =~= modelo_tokens(ts).update(k, modelo_token(t)));
}

/// Mapping an alternative list to its mirror commutes with appending.
pub proof fn lema_modelo_expresiones_push(es: Seq<Expresion>, e: Expresion)
    ensures
        modelo_expresiones(es.push(e)) == modelo_expresiones(es).push(modelo_tokens(e.tokens@)),
{
    assert(modelo_expresiones(es.push(e)) =~= modelo_expresiones(es).push(
        modelo_tokens(e.tokens@),
    ));
}

impl Regex {
    /// The character opens a repetition suffix.
    fn es_metacaracter_de_repeticion(c: char) -> (r: bool)
        ensures
            r == (c == '?' || c == '*' || c == '+' || c == '{'),
    {
        (c == '?') || (c == '*') || (c == '+') || (c == '{')
    }

    /// A fresh wildcard token.
    fn nuevo_token_comodin() -> (r: RegexToken)
        ensures
            modelo_token(r) == espec_comodin(),
    {
        RegexToken::new(ValorRegexToken::Comodin, RepeticionRegexToken::new(Some(1), Some(1)))
    }

    /// A fresh literal token.
    fn nuevo_token_literal(literal: char) -> (r: RegexToken)
        ensures
            modelo_token(r) == espec_literal(literal),
    {
        RegexToken::new(
            ValorRegexToken::Literal(literal),
            RepeticionRegexToken::new(Some(1), Some(1)),
        )
    }

    /// A fresh end-anchor token, locked at the null repetition.
    fn nuevo_token_de_anclaje_final() -> (r: RegexToken)
        ensures
            modelo_token(r) == espec_anclaje_final(),
    {
        RegexToken::new(
            ValorRegexToken::AnclajeFinal,
            RepeticionRegexToken::new(Some(0), Some(0)),
        )
    }

    /// Handles a `^`: looking at the previous pattern character, it yields a
    /// start anchor at the start of an alternative, nothing right after
    /// another `^`, and an error anywhere else.
    fn nuevo_token_de_anclaje_inicio(iter_chars: &mut IteradorVecHaciaAtras<char>) -> (r: Result<
        Option<RegexToken>,
        ErrorRegex,
    >)
        requires
            old(iter_chars).valido(),
            0 <= old(iter_chars).posicion() < old(iter_chars).elementos().len(),
        ensures
            final(iter_chars).elementos() == old(iter_chars).elementos(),
            final(iter_chars).valido(),
            final(iter_chars).posicion() == old(iter_chars).posicion(),
            ({
                let cs = old(iter_chars).elementos();
                let j = old(iter_chars).posicion();
                if j == 0 || cs[j - 1] == '|' {
                    r matches Ok(Some(t)) && modelo_token(t) == espec_anclaje_inicio()
                } else if cs[j - 1] == '^' {
                    r matches Ok(o) && o is None
                } else {
                    r == Err::<Option<RegexToken>, ErrorRegex>(
                        ErrorRegex::ExpresionInvalidaAnclajeInicio,
                    )
                }
            }),
    {
        let anterior = iter_chars.prev();
        match anterior {
            Some(c) => {
                let c = copia_caracter(*c);
                let _ = iter_chars.next();
                if c == '^' {
                    Ok(None)
                } else if c == '|' {
                    Ok(
                        Some(
                            RegexToken::new(
                                ValorRegexToken::AnclajeInicio,
                                RepeticionRegexToken::new(Some(0), Some(0)),
                            ),
                        ),
                    )
                } else {
                    Err(ErrorRegex::ExpresionInvalidaAnclajeInicio)
                }
            },
            None => {
                Ok(
                    Some(
                        RegexToken::new(
                            ValorRegexToken::AnclajeInicio,
                            RepeticionRegexToken::new(Some(0), Some(0)),
                        ),
                    ),
                )
            },
        }
    }

    /// Reads the character after a backslash as a literal; a backslash at
    /// the very end of the pattern is an error.
    fn siguiente_como_literal(iter_chars: &mut IteradorVecHaciaAtras<char>) -> (r: Result<
        Option<RegexToken>,
        ErrorRegex,
    >)
        requires
            old(iter_chars).valido(),
        ensures
            final(iter_chars).elementos() == old(iter_chars).elementos(),
            final(iter_chars).valido(),
            ({
                let cs = old(iter_chars).elementos();
                let j = old(iter_chars).posicion();
                if j + 1 < cs.len() {
                    r matches Ok(Some(t)) && modelo_token(t) == espec_literal(cs[j + 1])
                        && final(iter_chars).posicion() == j + 1
                } else {
                    r == Err::<Option<RegexToken>, ErrorRegex>(ErrorRegex::BarraInvertidaAlFinal)
                        && final(iter_chars).posicion() == cs.len()
                }
            }),
    {
        let proximo = iter_chars.next();
        match proximo {
            Some(literal) => {
                let literal = copia_caracter(*literal);
                Ok(Some(Self::nuevo_token_literal(literal)))
            },
            None => Err(ErrorRegex::BarraInvertidaAlFinal),
        }
    }

    /// Closes the open alternative and adds it to the list.
    fn guardar_expresion(expresiones: &mut Vec<Expresion>, tokens: Vec<RegexToken>)
        ensures
            final(expresiones)@ == old(expresiones)@.push((Expresion { tokens })),
    {
        let expresion = Expresion::new(tokens);
        expresiones.push(expresion);
    }

    /// Attempts to modify the repetition of the last token from a
    /// repetition character.  Reports whether a repetition was read and
    /// applied; a repetition with no token before it, or stacked on a
    /// locked token, is an error.
    fn modificar_repeticion_token(
        tokens: &mut Vec<RegexToken>,
        c: char,
        iter_chars: &mut IteradorVecHaciaAtras<char>,
    ) -> (r: Result<bool, ErrorRegex>)
        requires
            old(iter_chars).valido(),
            old(iter_chars).posicion() < old(iter_chars).elementos().len(),
        ensures
            final(iter_chars).elementos() == old(iter_chars).elementos(),
            final(iter_chars).valido(),
            final(iter_chars).posicion() == pos_tras_repeticion(
                c,
                old(iter_chars).elementos(),
                old(iter_chars).posicion() + 1,
            ),
            ({
                let cs = old(iter_chars).elementos();
                let q = old(iter_chars).posicion() + 1;
                match resultado_repeticion(c, cs, q) {
                    Err(e) => r == Err::<bool, ErrorRegex>(e) && final(tokens)@ == old(tokens)@,
                    Ok(Some(rep)) => {
                        if old(tokens)@.len() == 0 {
                            r == Err::<bool, ErrorRegex>(ErrorRegex::RepeticionInvalida) && final(tokens)@ == old(tokens)@
                        } else if !old(tokens)@.last().repeticion_modificable {
                            r == Err::<bool, ErrorRegex>(ErrorRegex::RepeticionInvalida) && final(tokens)@ == old(tokens)@
                        } else {
                            r == Ok::<bool, ErrorRegex>(true) && final(tokens)@ == old(tokens)@.update(
                                old(tokens)@.len() - 1,
                                (RegexToken {
                                    valor: old(tokens)@.last().valor,
                                    repeticion: rep,
                                    repeticion_modificable: false,
                                }),
                            )
                        }
                    },
                    Ok(None) => r == Ok::<bool, ErrorRegex>(false) && final(tokens)@ == old(tokens)@,
                }
            }),
    {
        let ghost antes = tokens@;
        let repeticion = obtener_repeticion(c, iter_chars)?;
        match repeticion {
            Some(rep) => {
                if tokens.len() == 0 {
                    return Err(ErrorRegex::RepeticionInvalida);
                }
                let ultimo = tokens.pop();
                match ultimo {
                    Some(mut ultimo_token) => {
                        let pudo = ultimo_token.modificar_repeticion(rep);
                        tokens.push(ultimo_token);
                        proof {
                            if antes.last().repeticion_modificable {
                                assert(tokens@ =~= antes.update(
                                    antes.len() - 1,
                                    (RegexToken {
                                        valor: antes.last().valor,
                                        repeticion: rep,
                                        repeticion_modificable: false,
                                    }),
                                ));
                            } else {
                                assert(tokens@ =~= antes);
                            }
                        }
                        if !pudo {
                            Err(ErrorRegex::RepeticionInvalida)
                        } else {
                            Ok(true)
                        }
                    },
                    None => {
                        proof {
                            assert(false);
                        }
                        Err(ErrorRegex::RepeticionInvalida)
                    },
                }
            },
            None => Ok(false),
        }
    }

    /// Builds the token a pattern character stands for, reading further
    /// characters for escapes and bracket expressions; `^` may yield no
    /// token at all.
    fn nuevo_token(c: char, iter_chars: &mut IteradorVecHaciaAtras<char>) -> (r: Result<
        Option<RegexToken>,
        ErrorCompilacion,
    >)
        requires
            old(iter_chars).valido(),
            0 <= old(iter_chars).posicion() < old(iter_chars).elementos().len(),
            old(iter_chars).elementos()[old(iter_chars).posicion()] == c,
            c != '|',
        ensures
            final(iter_chars).elementos() == old(iter_chars).elementos(),
            final(iter_chars).valido(),
            ({
                let cs = old(iter_chars).elementos();
                let j = old(iter_chars).posicion();
                if c == '.' {
                    r matches Ok(Some(t)) && modelo_token(t) == espec_comodin() && final(iter_chars).posicion() == j
                } else if c == '\\' {
                    if j + 1 < cs.len() {
                        r matches Ok(Some(t)) && modelo_token(t) == espec_literal(cs[j + 1])
                            && final(iter_chars).posicion() == j + 1
                    } else {
                        r == Err::<Option<RegexToken>, ErrorCompilacion>(
                            ErrorCompilacion::Regex(ErrorRegex::BarraInvertidaAlFinal),
                        )
                    }
                } else if c == '^' {
                    final(iter_chars).posicion() == j && (if j == 0 || cs[j - 1] == '|' {
                        r matches Ok(Some(t)) && modelo_token(t) == espec_anclaje_inicio()
                    } else if cs[j - 1] == '^' {
                        r matches Ok(o) && o is None
                    } else {
                        r == Err::<Option<RegexToken>, ErrorCompilacion>(
                            ErrorCompilacion::Regex(ErrorRegex::ExpresionInvalidaAnclajeInicio),
                        )
                    })
                } else if c == '$' {
                    r matches Ok(Some(t)) && modelo_token(t) == espec_anclaje_final() && final(iter_chars).posicion() == j
                } else if c == '[' {
                    final(iter_chars).posicion() == pos_tras_bracket(cs, j + 1) && (match
                        resultado_bracket(cs, j + 1) {
                        Err(e) => r == Err::<Option<RegexToken>, ErrorCompilacion>(
                            ErrorCompilacion::Bracket(e),
                        ),
                        Ok(par) => r matches Ok(Some(t)) && modelo_token(t) == espec_bracket(par),
                    })
                } else {
                    r matches Ok(Some(t)) && modelo_token(t) == espec_literal(c) && final(iter_chars).posicion() == j
                }
            }),
    {
        if c == '.' {
            Ok(Some(Self::nuevo_token_comodin()))
        } else if c == '\\' {
            match Self::siguiente_como_literal(iter_chars) {
                Ok(t) => Ok(t),
                Err(e) => Err(ErrorCompilacion::Regex(e)),
            }
        } else if c == '^' {
            match Self::nuevo_token_de_anclaje_inicio(iter_chars) {
                Ok(t) => Ok(t),
                Err(e) => Err(ErrorCompilacion::Regex(e)),
            }
        } else if c == '$' {
            Ok(Some(Self::nuevo_token_de_anclaje_final()))
        } else if c == '[' {
            match nuevo_token_expresion_bracket(iter_chars) {
                Ok(t) => Ok(Some(t)),
                Err(e) => Err(ErrorCompilacion::Bracket(e)),
            }
        } else {
            Ok(Some(Self::nuevo_token_literal(c)))
        }
    }

    /// Compiles a pattern into a regular expression: the `|`-separated
    /// alternatives are read one character at a time into token lists.  The
    /// result is exactly what the specification function `compila` assigns
    /// to the pattern — the same alternatives on success, the same error
    /// otherwise.
    pub fn new(patron: &str) -> (r: Result<Self, ErrorCompilacion>)
        ensures
            match compila(patron@) {
                Ok(m) => r matches Ok(rx) && modelo_expresiones(rx.expresiones@) == m,
                Err(e) => r == Err::<Regex, ErrorCompilacion>(e),
            },
    {
        let mut tokens: Vec<RegexToken> = Vec::new();
        let mut expresiones: Vec<Expresion> = Vec::new();
        let chars = a_caracteres(patron);
        let ghost cs = patron@;
        let mut iter_chars = IteradorVecHaciaAtras::new(&chars);
        proof {
            assert(modelo_tokens(tokens@) =~= Seq::<TokenEspec>::empty());
            assert(modelo_expresiones(expresiones@) =~= Seq::<Seq<TokenEspec>>::empty());
        }
        loop
            invariant
                cs == patron@,
                chars@ == cs,
                iter_chars.elementos() == cs,
                iter_chars.valido(),
                compila_desde(
                    cs,
                    iter_chars.posicion() + 1,
                    modelo_tokens(tokens@),
                    modelo_expresiones(expresiones@),
                ) == compila(cs),
            ensures
                iter_chars.posicion() + 1 >= cs.len(),
                compila_desde(
                    cs,
                    iter_chars.posicion() + 1,
                    modelo_tokens(tokens@),
                    modelo_expresiones(expresiones@),
                ) == compila(cs),
            decreases cs.len() - iter_chars.posicion(),
        {
            let ghost j = iter_chars.posicion() + 1;
            let ghost tokens_antes = tokens@;
            let ghost exprs_antes = expresiones@;
            let proximo = iter_chars.next();
            match proximo {
                None => {
                    break ;
                },
                Some(c_ref) => {
                    let c = copia_caracter(*c_ref);
                    let ghost mt0 = modelo_tokens(tokens_antes);
                    let ghost me0 = modelo_expresiones(exprs_antes);
                    proof {
                        assert(cs[j] == c);
                        assert(forall|i: int|
                            0 <= i < tokens_antes.len() ==> mt0[i] == modelo_token(
                                tokens_antes[i],
                            ));
                    }
                    let mut procesado = false;
                    if Self::es_metacaracter_de_repeticion(c) {
                        let modificado = Self::modificar_repeticion_token(
                            &mut tokens,
                            c,
                            &mut iter_chars,
                        );
                        match modificado {
                            Err(e) => {
                                proof {
                                    assert(compila(cs) == Err::<
                                        Seq<Seq<TokenEspec>>,
                                        ErrorCompilacion,
                                    >(ErrorCompilacion::Regex(e)));
                                }
                                return Err(ErrorCompilacion::Regex(e));
                            },
                            Ok(true) => {
                                proof {
                                    if c == '{' {
                                        lema_escanea_rango_cota(cs, j + 1, 0);
                                    }
                                    lema_modelo_update(
                                        tokens_antes,
                                        tokens_antes.len() - 1,
                                        tokens@.last(),
                                    );
                                    assert(modelo_tokens(tokens@) == mt0.update(
                                        mt0.len() - 1,
                                        TokenEspec {
                                            valor: mt0.last().valor,
                                            repeticion: tokens@.last().repeticion,
                                            repeticion_modificable: false,
                                        },
                                    ));
                                    assert(compila_desde(
                                        cs,
                                        iter_chars.posicion() + 1,
                                        modelo_tokens(tokens@),
                                        me0,
                                    ) == compila(cs));
                                }
                                procesado = true;
                            },
                            Ok(false) => {
                                proof {
                                    lema_escanea_rango_cota(cs, j + 1, 0);
                                    match escanea_rango(cs, j + 1, 0) {
                                        EscaneoRango::Corte(p) => {
                                            lema_retrocede_n_exacta(p, (p - j) as nat);
                                        },
                                        EscaneoRango::Agotado => {
                                            lema_retrocede_n_exacta(
                                                cs.len() - 1,
                                                (cs.len() - 1 - j) as nat,
                                            );
                                        },
                                        _ => {},
                                    }
                                    assert(iter_chars.posicion() == j);
                                }
                            },
                        }
                    }
                    if !procesado {
                        if c == '|' {
                            Self::guardar_expresion(&mut expresiones, tokens);
                            tokens = Vec::new();
                            proof {
                                let e = expresiones@.last();
                                lema_modelo_expresiones_push(exprs_antes, e);
                                assert(expresiones@ =~= exprs_antes.push(e));
                                assert(modelo_tokens(tokens@) =~= Seq::<TokenEspec>::empty());
                                assert(modelo_tokens(e.tokens@) == mt0);
                                assert(compila_desde(
                                    cs,
                                    j + 1,
                                    Seq::empty(),
                                    me0.push(mt0),
                                ) == compila(cs));
                            }
                        } else {
                            let token = match Self::nuevo_token(c, &mut iter_chars) {
                                Ok(t) => t,
                                Err(e) => {
                                    proof {
                                        assert(compila(cs) == Err::<
                                            Seq<Seq<TokenEspec>>,
                                            ErrorCompilacion,
                                        >(e));
                                    }
                                    return Err(e);
                                },
                            };
                            proof {
                                if c == '\\' && j + 1 < cs.len() {
                                    let lavado = caracter_de(cs, j + 1);
                                }
                                if c == '[' {
                                    lema_escanea_bracket_cota(cs, j + 1, j + 1, false);
                                }
                            }
                            match token {
                                Some(t) => {
                                    proof {
                                        lema_modelo_push(tokens_antes, t);
                                    }
                                    tokens.push(t);
                                    proof {
                                        assert(modelo_tokens(tokens@) == mt0.push(
                                            modelo_token(tokens@.last()),
                                        ));
                                        assert(compila_desde(
                                            cs,
                                            iter_chars.posicion() + 1,
                                            modelo_tokens(tokens@),
                                            me0,
                                        ) == compila(cs));
                                    }
                                },
                                None => {
                                    proof {
                                        assert(compila_desde(cs, j + 1, mt0, me0) == compila(
                                            cs,
                                        ));
                                    }
                                },
                            }
                        }
                    }
                },
            }
        }
        let ghost tokens_fin = tokens@;
        let ghost exprs_fin = expresiones@;
        Self::guardar_expresion(&mut expresiones, tokens);
        proof {
            let e = expresiones@.last();
            lema_modelo_expresiones_push(exprs_fin, e);
            assert(expresiones@ =~= exprs_fin.push(e));
            assert(modelo_tokens(e.tokens@) == modelo_tokens(tokens_fin));
            assert(compila(cs) == Ok::<Seq<Seq<TokenEspec>>, ErrorCompilacion>(
                modelo_expresiones(exprs_fin).push(modelo_tokens(tokens_fin)),
            ));
        }
        Ok(Regex { expresiones })
    }

    /// Reports whether any alternative of the expression matches the
    /// candidate string.
    pub fn matchea(&self, valor: &str) -> (r: bool)
        ensures
            r == regex_matchea(self.expresiones@, valor@),
    {
        let mut k: usize = 0;
        while k < self.expresiones.len()
            invariant
                k <= self.expresiones@.len(),
                forall|i: int|
                    0 <= i < k ==> !expresion_matchea(self.expresiones@[i].tokens@, valor@),
            decreases self.expresiones@.len() - k,
        {
            if self.expresiones[k].matchea(valor) {
                return true;
            }
            k = k + 1;
        }
        false
    }
}

} // verus!
