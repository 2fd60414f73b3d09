//! The laws of the engine, stated and proved once and for all.
//!
//! Each public proof function here is a theorem about the specification
//! functions that the executable engine is verified against: `compila` for
//! compilation and the backtracking machine of [`crate::maquina`] for
//! matching.  Together they pin down the observable behaviour promised by
//! the engine's documentation: determinism of compilation, the meaning of
//! the empty pattern, of purely literal patterns, of anchors, of bracket
//! expressions and their negations, of repetition bounds, and the
//! disjunctive reading of alternation.

use vstd::prelude::*;
use crate::cadena::{caracter_de, largo_utf8_de};
use crate::clase_caracter::{ClaseCaracter, clase_acepta, es_digito};
use crate::expresion::Expresion;
use crate::expresion_bracket::{escanea_bracket, parsea_resto, resultado_bracket};
use crate::rango_repeticion::{
    EscaneoRango, campo_numerico, escanea_rango, lema_escanea_rango_cota, posicion_coma,
    resultado_rango, valores_del_contenido,
};
use crate::iterador_vec::lema_retrocede_n_no_negativo;
use crate::maquina::{
    Maquina, PasoMaquina, combustible_total, corre, expresion_matchea, extras, hay_regreso,
    lema_racha_cota, maquina_inicial, matchea_desde, paso, racha, tras_fases,
};
use crate::regex::{
    TokenEspec, ValorEspec, compila, compila_desde, espec_bracket, espec_literal,
    modelo_expresiones, modelo_token, modelo_tokens, modelo_valor, regex_matchea,
};
use crate::regex_token::RegexToken;
use crate::repeticion_regex_token::RepeticionRegexToken;
use crate::valor_regex_token::{
    ValorRegexToken, alguna_clase_acepta, matcheo_valor, valor_acepta,
};

verus! {

/// Two token values with the same mirror accept exactly the same
/// characters.
proof fn lema_acepta_modelo(v1: ValorRegexToken, v2: ValorRegexToken, c: char)
    requires
        modelo_valor(v1) == modelo_valor(v2),
    ensures
        valor_acepta(v1, c) == valor_acepta(v2, c),
{
    match v1 {
        ValorRegexToken::Literal(_) => {},
        ValorRegexToken::Comodin => {},
        ValorRegexToken::AnclajeInicio => {},
        ValorRegexToken::AnclajeFinal => {},
        ValorRegexToken::ExpresionBracket(_) => {},
        ValorRegexToken::ExpresionBracketNegada(_) => {},
    }
}

/// Two token values with the same mirror are anchors in exactly the same
/// way.
proof fn lema_anclajes_modelo(v1: ValorRegexToken, v2: ValorRegexToken)
    requires
        modelo_valor(v1) == modelo_valor(v2),
    ensures
        (v1 is AnclajeFinal) == (v2 is AnclajeFinal),
        (v1 is AnclajeInicio) == (v2 is AnclajeInicio),
{
    match v1 {
        ValorRegexToken::Literal(_) => {},
        ValorRegexToken::Comodin => {},
        ValorRegexToken::AnclajeInicio => {},
        ValorRegexToken::AnclajeFinal => {},
        ValorRegexToken::ExpresionBracket(_) => {},
        ValorRegexToken::ExpresionBracketNegada(_) => {},
    }
    match v2 {
        ValorRegexToken::Literal(_) => {},
        ValorRegexToken::Comodin => {},
        ValorRegexToken::AnclajeInicio => {},
        ValorRegexToken::AnclajeFinal => {},
        ValorRegexToken::ExpresionBracket(_) => {},
        ValorRegexToken::ExpresionBracketNegada(_) => {},
    }
}

/// Two token values with the same mirror have the same greedy runs.
proof fn lema_racha_modelo(v1: ValorRegexToken, v2: ValorRegexToken, s: Seq<char>, i: int)
    requires
        modelo_valor(v1) == modelo_valor(v2),
    ensures
        racha(v1, s, i) == racha(v2, s, i),
    decreases s.len() - i,
{
    if 0 <= i && i < s.len() {
        lema_acepta_modelo(v1, v2, s[i]);
        if valor_acepta(v1, s[i]) {
            lema_racha_modelo(v1, v2, s, i + 1);
        }
    }
}

/// Two token lists with the same mirror drive the machine identically for
/// one step.
proof fn lema_paso_modelo(ts1: Seq<RegexToken>, ts2: Seq<RegexToken>, s: Seq<char>, m: Maquina)
    requires
        modelo_tokens(ts1) == modelo_tokens(ts2),
        m.cursor >= -1,
    ensures
        paso(ts1, s, m) == paso(ts2, s, m),
        paso(ts1, s, m) matches PasoMaquina::Sigue(m2) ==> m2.cursor >= -1,
{
    assert(modelo_tokens(ts1).len() == ts1.len());
    assert(modelo_tokens(ts2).len() == ts2.len());
    assert(ts1.len() == ts2.len());
    let c1 = m.cursor + 1;
    if 0 <= c1 && c1 < ts1.len() {
        assert(modelo_tokens(ts1)[c1] == modelo_token(ts1[c1]));
        assert(modelo_tokens(ts2)[c1] == modelo_token(ts2[c1]));
        let t1 = ts1[c1];
        let t2 = ts2[c1];
        assert(modelo_valor(t1.valor) == modelo_valor(t2.valor));
        assert(t1.repeticion == t2.repeticion);
        lema_anclajes_modelo(t1.valor, t2.valor);
        lema_racha_modelo(t1.valor, t2.valor, s, m.indice);
        if t1.repeticion.min matches Some(n) && racha(t1.valor, s, m.indice) < n && hay_regreso(
            m.pila,
        ) {
            lema_retrocede_n_no_negativo(
                crate::iterador_vec::retrocede(c1),
                (m.pila.len() - 1 - crate::maquina::tope_regreso(m.pila)) as nat,
            );
        }
        match t1.repeticion.min {
            Some(n) => {
                if racha(t1.valor, s, m.indice) >= n {
                    lema_racha_modelo(t1.valor, t2.valor, s, m.indice + n);
                    let pila1 = if n > 0 {
                        m.pila.push((n, false))
                    } else {
                        m.pila
                    };
                    assert(extras(t1, s, m.indice + n, n as int) == extras(
                        t2,
                        s,
                        m.indice + n,
                        n as int,
                    ));
                    assert(tras_fases(t1, s, c1, m.indice + n, n as int, pila1) == tras_fases(
                        t2,
                        s,
                        c1,
                        m.indice + n,
                        n as int,
                        pila1,
                    ));
                }
            },
            None => {
                lema_racha_modelo(t1.valor, t2.valor, s, m.indice);
                assert(extras(t1, s, m.indice, 0) == extras(t2, s, m.indice, 0));
                assert(tras_fases(t1, s, c1, m.indice, 0, m.pila) == tras_fases(
                    t2,
                    s,
                    c1,
                    m.indice,
                    0,
                    m.pila,
                ));
            },
        }
    }
}

/// Two token lists with the same mirror drive the machine identically for
/// any number of steps.
proof fn lema_corre_modelo(
    ts1: Seq<RegexToken>,
    ts2: Seq<RegexToken>,
    s: Seq<char>,
    m: Maquina,
    f: nat,
)
    requires
        modelo_tokens(ts1) == modelo_tokens(ts2),
        m.cursor >= -1,
    ensures
        corre(ts1, s, m, f) == corre(ts2, s, m, f),
    decreases f,
{
    lema_paso_modelo(ts1, ts2, s, m);
    match paso(ts1, s, m) {
        PasoMaquina::Termina(_) => {},
        PasoMaquina::Sigue(m2) => {
            if f > 0 {
                lema_corre_modelo(ts1, ts2, s, m2, (f - 1) as nat);
            }
        },
    }
}

/// Two alternatives with the same mirror match exactly the same candidates.
proof fn lema_expresion_modelo(ts1: Seq<RegexToken>, ts2: Seq<RegexToken>, s: Seq<char>)
    requires
        modelo_tokens(ts1) == modelo_tokens(ts2),
    ensures
        expresion_matchea(ts1, s) == expresion_matchea(ts2, s),
{
    assert(modelo_tokens(ts1).len() == ts1.len());
    assert(modelo_tokens(ts2).len() == ts2.len());
    assert(ts1.len() == ts2.len());
    if ts1.len() > 0 {
        assert(modelo_tokens(ts1)[0] == modelo_token(ts1[0]));
        assert(modelo_tokens(ts2)[0] == modelo_token(ts2[0]));
        assert((ts1[0].valor is AnclajeInicio) == (ts2[0].valor is AnclajeInicio));
        assert forall|i: int| matchea_desde(ts1, s, i) == matchea_desde(ts2, s, i) by {
            lema_corre_modelo(ts1, ts2, s, maquina_inicial(i), combustible_total());
        }
    }
}

/// Compilation is deterministic: any two compiled expressions with the same
/// mirror — in particular, any two results of compiling the same pattern —
/// match exactly the same candidates.
pub proof fn ley_compilacion_determinista(es1: Seq<Expresion>, es2: Seq<Expresion>, s: Seq<char>)
    requires
        modelo_expresiones(es1) == modelo_expresiones(es2),
    ensures
        regex_matchea(es1, s) == regex_matchea(es2, s),
{
    assert(modelo_expresiones(es1).len() == es1.len());
    assert(modelo_expresiones(es2).len() == es2.len());
    assert(es1.len() == es2.len());
    assert forall|k: int|
        0 <= k < es1.len() implies expresion_matchea(es1[k].tokens@, s) == expresion_matchea(
        es2[k].tokens@,
        s,
    ) by {
        assert(modelo_expresiones(es1)[k] == modelo_tokens(es1[k].tokens@));
        assert(modelo_expresiones(es2)[k] == modelo_tokens(es2[k].tokens@));
        lema_expresion_modelo(es1[k].tokens@, es2[k].tokens@, s);
    }
    if regex_matchea(es1, s) {
        let k = choose|k: int| 0 <= k < es1.len() && expresion_matchea(es1[k].tokens@, s);
        assert(expresion_matchea(es2[k].tokens@, s));
    }
    if regex_matchea(es2, s) {
        let k = choose|k: int| 0 <= k < es2.len() && expresion_matchea(es2[k].tokens@, s);
        assert(expresion_matchea(es1[k].tokens@, s));
    }
}

/// The empty pattern compiles to one empty alternative, and that expression
/// matches every candidate.
pub proof fn ley_patron_vacio(es: Seq<Expresion>, s: Seq<char>)
    requires
        compila(Seq::<char>::empty()) matches Ok(m) && modelo_expresiones(es) == m,
    ensures
        regex_matchea(es, s),
{
    assert(compila(Seq::<char>::empty()) == Ok::<_, crate::regex::ErrorCompilacion>(
        Seq::<Seq<crate::regex::TokenEspec>>::empty().push(Seq::empty()),
    ));
    assert(modelo_expresiones(es).len() == es.len());
    assert(modelo_expresiones(es).len() == 1);
    assert(es.len() == 1);
    assert(modelo_expresiones(es)[0] == modelo_tokens(es[0].tokens@));
    assert(modelo_tokens(es[0].tokens@).len() == es[0].tokens@.len());
    assert(es[0].tokens@.len() == 0);
    assert(expresion_matchea(es[0].tokens@, s));
}

/// No match of a token value against a string ever reports a byte count
/// that splits a character: the count is either zero or the full UTF-8
/// width of the string's first character.
pub proof fn ley_largo_utf8(v: ValorRegexToken, s: Seq<char>)
    ensures
        matcheo_valor(v, s) == 0 || (s.len() > 0 && matcheo_valor(v, s) == largo_utf8_de(s[0])),
{
}

/// A token that consumes exactly one character, exactly once: a literal,
/// the wildcard or a bracket expression with the repetition `(1, 1)`.
pub open spec fn token_simple(t: RegexToken) -> bool {
    &&& !(t.valor is AnclajeInicio)
    &&& !(t.valor is AnclajeFinal)
    &&& t.repeticion == RepeticionRegexToken { min: Some(1usize), max: Some(1usize) }
}

/// The tokens from index `c1` on all match the candidate in lockstep from
/// position `idx`: one character per token, in order.
pub open spec fn coinciden_desde(ts: Seq<RegexToken>, s: Seq<char>, c1: int, idx: int) -> bool {
    &&& idx + (ts.len() - c1) <= s.len()
    &&& forall|k: int| c1 <= k < ts.len() ==> valor_acepta(ts[k].valor, s[idx + (k - c1)])
}

/// Pushing an unyielding frame leaves a stack with nothing to give back.
proof fn lema_sin_regreso_push(pila: Seq<(usize, bool)>, n: usize)
    requires
        !hay_regreso(pila),
    ensures
        !hay_regreso(pila.push((n, false))),
{
    let pila2 = pila.push((n, false));
    assert(forall|k: int| 0 <= k < pila.len() ==> pila2[k] == pila[k]);
    if hay_regreso(pila2) {
        let k = choose|k: int| 0 <= k < pila2.len() && pila2[k].1;
        assert(k < pila.len() && pila[k].1);
    }
}

/// On a list of single-character tokens the machine is a plain walk: it
/// accepts exactly when the remaining tokens match the candidate in
/// lockstep from the current position.
proof fn lema_corre_simples(ts: Seq<RegexToken>, s: Seq<char>, m: Maquina, f: nat)
    requires
        forall|k: int| m.cursor + 1 <= k < ts.len() ==> token_simple(ts[k]),
        !hay_regreso(m.pila),
        -1 <= m.cursor,
        m.cursor + 1 <= ts.len(),
        0 <= m.indice <= s.len(),
        f >= ts.len() - m.cursor,
    ensures
        corre(ts, s, m, f) == Some(coinciden_desde(ts, s, m.cursor + 1, m.indice)),
    decreases ts.len() - m.cursor,
{
    let c1 = m.cursor + 1;
    let idx = m.indice;
    if c1 >= ts.len() {
        assert(paso(ts, s, m) == PasoMaquina::Termina(true));
        assert(coinciden_desde(ts, s, c1, idx));
    } else {
        let t = ts[c1];
        assert(token_simple(t));
        if idx < s.len() && valor_acepta(t.valor, s[idx]) {
            assert(racha(t.valor, s, idx) >= 1);
            let pila1 = m.pila.push((1usize, false));
            assert(extras(t, s, idx + 1, 1) == 0);
            let m2 = tras_fases(t, s, c1, idx + 1, 1, pila1);
            assert(m2.pila =~= pila1);
            assert(m2 == (Maquina { cursor: c1, indice: idx + 1, pila: pila1 }));
            assert(paso(ts, s, m) == PasoMaquina::Sigue(m2));
            lema_sin_regreso_push(m.pila, 1);
            lema_corre_simples(ts, s, m2, (f - 1) as nat);
            assert(corre(ts, s, m, f) == corre(ts, s, m2, (f - 1) as nat));
            assert(coinciden_desde(ts, s, c1, idx) == coinciden_desde(ts, s, c1 + 1, idx + 1))
                by {
                if coinciden_desde(ts, s, c1 + 1, idx + 1) {
                    assert forall|k: int|
                        c1 <= k < ts.len() implies valor_acepta(ts[k].valor, s[idx + (k - c1)]) by {
                        if k > c1 {
                            assert(valor_acepta(ts[k].valor, s[idx + 1 + (k - (c1 + 1))]));
                        }
                    }
                }
                if coinciden_desde(ts, s, c1, idx) {
                    assert forall|k: int|
                        c1 + 1 <= k < ts.len() implies valor_acepta(
                        ts[k].valor,
                        s[idx + 1 + (k - (c1 + 1))],
                    ) by {
                        assert(valor_acepta(ts[k].valor, s[idx + (k - c1)]));
                    }
                }
            }
        } else {
            assert(racha(t.valor, s, idx) == 0);
            assert(paso(ts, s, m) == PasoMaquina::Termina(false));
            assert(!coinciden_desde(ts, s, c1, idx)) by {
                if coinciden_desde(ts, s, c1, idx) {
                    assert(valor_acepta(ts[c1].valor, s[idx + (c1 - c1)]));
                    assert(idx + (ts.len() - c1) <= s.len());
                    assert(idx < s.len());
                }
            }
        }
    }
}

/// A character of the pattern that only ever stands for itself.
pub open spec fn es_metacaracter(c: char) -> bool {
    c == '?' || c == '*' || c == '+' || c == '{' || c == '|' || c == '.' || c == '\\' || c == '^'
        || c == '$' || c == '['
}

/// No character of the pattern is a metacharacter.
pub open spec fn sin_metacaracteres(cs: Seq<char>) -> bool {
    forall|i: int| 0 <= i < cs.len() ==> !es_metacaracter(cs[i])
}

/// One literal token per pattern character.
pub open spec fn literales_espec(cs: Seq<char>) -> Seq<TokenEspec> {
    Seq::new(cs.len(), |i: int| espec_literal(cs[i]))
}

/// A pattern without metacharacters compiles to one literal token per
/// character, appended to the open alternative.
proof fn lema_compila_literales(
    cs: Seq<char>,
    j: int,
    tokens: Seq<TokenEspec>,
    exprs: Seq<Seq<TokenEspec>>,
)
    requires
        0 <= j <= cs.len(),
        forall|k: int| j <= k < cs.len() ==> !es_metacaracter(cs[k]),
    ensures
        compila_desde(cs, j, tokens, exprs) == Ok::<_, crate::regex::ErrorCompilacion>(
            exprs.push(tokens + literales_espec(cs.subrange(j, cs.len() as int))),
        ),
    decreases cs.len() - j,
{
    if j == cs.len() {
        assert(literales_espec(cs.subrange(j, cs.len() as int)).len() == 0);
        assert(tokens + literales_espec(cs.subrange(j, cs.len() as int)) =~= tokens);
    } else {
        let c = caracter_de(cs, j);
        assert(!es_metacaracter(cs[j]));
        lema_compila_literales(cs, j + 1, tokens.push(espec_literal(c)), exprs);
        assert(tokens.push(espec_literal(c)) + literales_espec(
            cs.subrange(j + 1, cs.len() as int),
        ) =~= tokens + literales_espec(cs.subrange(j, cs.len() as int)));
    }
}

/// A token whose mirror is a literal token is a literal token.
proof fn lema_token_de_literal(t: RegexToken, c: char)
    requires
        modelo_token(t) == espec_literal(c),
    ensures
        t.valor == ValorRegexToken::Literal(c),
        t.repeticion == (RepeticionRegexToken { min: Some(1usize), max: Some(1usize) }),
        token_simple(t),
{
    match t.valor {
        ValorRegexToken::Literal(_) => {},
        ValorRegexToken::Comodin => {},
        ValorRegexToken::AnclajeInicio => {},
        ValorRegexToken::AnclajeFinal => {},
        ValorRegexToken::ExpresionBracket(_) => {},
        ValorRegexToken::ExpresionBracketNegada(_) => {},
    }
}

/// The needle occurs as a contiguous substring of the candidate.
pub open spec fn ocurre(aguja: Seq<char>, s: Seq<char>) -> bool {
    exists|i: int|
        0 <= i <= s.len() - aguja.len() && #[trigger] s.subrange(i, i + aguja.len()) == aguja
}

/// The literal law: a pattern without metacharacters matches a candidate
/// exactly when it occurs in it as a contiguous substring.
pub proof fn ley_literal(patron: Seq<char>, es: Seq<Expresion>, s: Seq<char>)
    requires
        sin_metacaracteres(patron),
        patron.len() < usize::MAX,
        compila(patron) matches Ok(m) && modelo_expresiones(es) == m,
    ensures
        regex_matchea(es, s) == ocurre(patron, s),
{
    let n = patron.len() as int;
    lema_compila_literales(patron, 0, Seq::empty(), Seq::empty());
    assert(patron.subrange(0, n) =~= patron);
    assert(Seq::<TokenEspec>::empty() + literales_espec(patron) =~= literales_espec(patron));
    assert(modelo_expresiones(es).len() == es.len());
    assert(es.len() == 1);
    assert(modelo_expresiones(es)[0] == modelo_tokens(es[0].tokens@));
    let ts = es[0].tokens@;
    assert(modelo_tokens(ts) == literales_espec(patron));
    assert(modelo_tokens(ts).len() == ts.len());
    assert(ts.len() == n);
    assert forall|k: int| 0 <= k < n implies ts[k].valor == ValorRegexToken::Literal(patron[k])
        && token_simple(ts[k]) by {
        let c = caracter_de(patron, k);
        assert(modelo_tokens(ts)[k] == modelo_token(ts[k]));
        assert(literales_espec(patron)[k] == espec_literal(c));
        lema_token_de_literal(ts[k], c);
    }
    if n == 0 {
        assert(expresion_matchea(ts, s));
        assert(s.subrange(0, 0) =~= patron);
        assert(0 <= 0 <= s.len() - patron.len() && s.subrange(0, 0 + patron.len() as int)
            == patron);
        assert(ocurre(patron, s));
        assert(regex_matchea(es, s)) by {
            assert(expresion_matchea(es[0].tokens@, s));
        }
    } else {
        assert(!(ts[0].valor is AnclajeInicio));
        assert forall|i: int| 0 <= i < s.len() implies matchea_desde(ts, s, i)
            == coinciden_desde(ts, s, 0, i) by {
            lema_corre_simples(ts, s, maquina_inicial(i), combustible_total());
        }
        assert forall|i: int|
            0 <= i < s.len() && coinciden_desde(ts, s, 0, i) implies 0 <= i <= s.len()
            - patron.len() && s.subrange(i, i + patron.len()) == patron by {
            assert(s.subrange(i, i + n) =~= patron) by {
                assert(forall|k: int|
                    0 <= k < n ==> s.subrange(i, i + n)[k] == s[i + k] && valor_acepta(
                        ts[k].valor,
                        s[i + k],
                    ));
            }
        }
        assert forall|i: int|
            0 <= i <= s.len() - patron.len() && s.subrange(i, i + patron.len()) == patron implies 0
            <= i < s.len() && coinciden_desde(ts, s, 0, i) by {
            assert forall|k: int| 0 <= k < ts.len() implies valor_acepta(
                ts[k].valor,
                s[i + k],
            ) by {
                assert(s.subrange(i, i + n)[k] == s[i + k]);
                assert(patron[k] == s[i + k]);
            }
        }
        if regex_matchea(es, s) {
            let q = choose|q: int| 0 <= q < es.len() && expresion_matchea(es[q].tokens@, s);
            assert(q == 0);
            assert(expresion_matchea(ts, s));
            let i = choose|i: int| 0 <= i < s.len() && matchea_desde(ts, s, i);
            assert(coinciden_desde(ts, s, 0, i));
            assert(ocurre(patron, s));
        }
        if ocurre(patron, s) {
            let i = choose|i: int|
                0 <= i <= s.len() - patron.len() && #[trigger] s.subrange(i, i + patron.len())
                    == patron;
            assert(coinciden_desde(ts, s, 0, i));
            assert(matchea_desde(ts, s, i));
            assert(expresion_matchea(ts, s));
            assert(regex_matchea(es, s));
        }
    }
}

/// A token whose mirror is a start anchor is a start anchor with the null
/// repetition.
proof fn lema_token_de_anclaje(t: RegexToken, inicial: bool)
    requires
        inicial ==> modelo_token(t) == crate::regex::espec_anclaje_inicio(),
        !inicial ==> modelo_token(t) == crate::regex::espec_anclaje_final(),
    ensures
        inicial ==> t.valor is AnclajeInicio,
        !inicial ==> t.valor is AnclajeFinal,
        t.repeticion == (RepeticionRegexToken { min: Some(0usize), max: Some(0usize) }),
{
    match t.valor {
        ValorRegexToken::Literal(_) => {},
        ValorRegexToken::Comodin => {},
        ValorRegexToken::AnclajeInicio => {},
        ValorRegexToken::AnclajeFinal => {},
        ValorRegexToken::ExpresionBracket(_) => {},
        ValorRegexToken::ExpresionBracketNegada(_) => {},
    }
}

/// The candidate starts with the needle.
pub open spec fn empieza_con(aguja: Seq<char>, s: Seq<char>) -> bool {
    aguja.len() <= s.len() && s.subrange(0, aguja.len() as int) == aguja
}

/// The candidate ends with the needle.
pub open spec fn termina_con(aguja: Seq<char>, s: Seq<char>) -> bool {
    aguja.len() <= s.len() && s.subrange(s.len() - aguja.len(), s.len() as int) == aguja
}

/// The start-anchor law: `^` followed by a pattern without metacharacters
/// matches a candidate exactly when the candidate starts with it.
pub proof fn ley_anclaje_inicio(aguja: Seq<char>, es: Seq<Expresion>, s: Seq<char>)
    requires
        sin_metacaracteres(aguja),
        aguja.len() + 2 < usize::MAX,
        compila(seq!['^'] + aguja) matches Ok(m) && modelo_expresiones(es) == m,
    ensures
        regex_matchea(es, s) == empieza_con(aguja, s),
{
    let cs = seq!['^'] + aguja;
    let n = aguja.len() as int;
    assert(cs[0] == '^' && cs.len() == n + 1);
    assert(forall|k: int| 1 <= k < cs.len() ==> cs[k] == aguja[k - 1]);
    lema_compila_literales(cs, 1, seq![crate::regex::espec_anclaje_inicio()], Seq::empty());
    assert(compila_desde(cs, 0, Seq::empty(), Seq::empty()) == compila_desde(
        cs,
        1,
        Seq::<TokenEspec>::empty().push(crate::regex::espec_anclaje_inicio()),
        Seq::empty(),
    ));
    assert(Seq::<TokenEspec>::empty().push(crate::regex::espec_anclaje_inicio())
        =~= seq![crate::regex::espec_anclaje_inicio()]);
    assert(modelo_expresiones(es).len() == es.len());
    assert(es.len() == 1);
    assert(modelo_expresiones(es)[0] == modelo_tokens(es[0].tokens@));
    let ts = es[0].tokens@;
    let mts = seq![crate::regex::espec_anclaje_inicio()] + literales_espec(
        cs.subrange(1, cs.len() as int),
    );
    assert(modelo_tokens(ts) == mts);
    assert(modelo_tokens(ts).len() == ts.len());
    assert(mts.len() == n + 1);
    assert(ts.len() == n + 1);
    assert(modelo_tokens(ts)[0] == modelo_token(ts[0]));
    assert(mts[0] == crate::regex::espec_anclaje_inicio());
    lema_token_de_anclaje(ts[0], true);
    assert(cs.subrange(1, cs.len() as int) =~= aguja);
    assert forall|k: int| 1 <= k < ts.len() implies ts[k].valor == ValorRegexToken::Literal(
        aguja[k - 1],
    ) && token_simple(ts[k]) by {
        let c = caracter_de(aguja, k - 1);
        assert(modelo_tokens(ts)[k] == modelo_token(ts[k]));
        assert(mts[k] == literales_espec(aguja)[k - 1]);
        assert(literales_espec(aguja)[k - 1] == espec_literal(c));
        lema_token_de_literal(ts[k], c);
    }
    assert(expresion_matchea(ts, s) == matchea_desde(ts, s, 0));
    let m0 = maquina_inicial(0);
    let t0 = ts[0];
    assert(racha(t0.valor, s, 0) == 0);
    assert(extras(t0, s, 0, 0) == 0);
    let m2 = tras_fases(t0, s, 0, 0, 0, m0.pila);
    assert(m2.pila =~= Seq::<(usize, bool)>::empty());
    assert(m2 == (Maquina { cursor: 0, indice: 0, pila: Seq::empty() }));
    assert(paso(ts, s, m0) == PasoMaquina::Sigue(m2));
    lema_corre_simples(ts, s, m2, (combustible_total() - 1) as nat);
    assert(corre(ts, s, m0, combustible_total()) == corre(
        ts,
        s,
        m2,
        (combustible_total() - 1) as nat,
    ));
    assert(matchea_desde(ts, s, 0) == coinciden_desde(ts, s, 1, 0));
    assert(coinciden_desde(ts, s, 1, 0) == empieza_con(aguja, s)) by {
        if coinciden_desde(ts, s, 1, 0) {
            assert(s.subrange(0, n) =~= aguja) by {
                assert(forall|k: int|
                    0 <= k < n ==> s.subrange(0, n)[k] == s[k] && valor_acepta(
                        ts[k + 1].valor,
                        s[0 + (k + 1 - 1)],
                    ));
            }
        }
        if empieza_con(aguja, s) {
            assert forall|k: int| 1 <= k < ts.len() implies valor_acepta(
                ts[k].valor,
                s[0 + (k - 1)],
            ) by {
                assert(s.subrange(0, n)[k - 1] == s[k - 1]);
                assert(aguja[k - 1] == s[k - 1]);
            }
        }
    }
    assert(regex_matchea(es, s) == expresion_matchea(ts, s)) by {
        if regex_matchea(es, s) {
            let q = choose|q: int| 0 <= q < es.len() && expresion_matchea(es[q].tokens@, s);
            assert(q == 0);
        }
    }
}

/// On single-character tokens followed by an end anchor the machine is a
/// plain walk that must land exactly on the end of the candidate.
proof fn lema_corre_simples_final(ts: Seq<RegexToken>, s: Seq<char>, m: Maquina, f: nat)
    requires
        ts.len() >= 1,
        ts[ts.len() - 1].valor is AnclajeFinal,
        forall|k: int| m.cursor + 1 <= k < ts.len() - 1 ==> token_simple(ts[k]),
        !hay_regreso(m.pila),
        -1 <= m.cursor,
        m.cursor + 1 <= ts.len() - 1,
        0 <= m.indice <= s.len(),
        f >= ts.len() - m.cursor,
    ensures
        corre(ts, s, m, f) == Some(
            m.indice + (ts.len() - 1 - (m.cursor + 1)) == s.len() && (forall|k: int|
                m.cursor + 1 <= k < ts.len() - 1 ==> valor_acepta(
                    ts[k].valor,
                    s[m.indice + (k - (m.cursor + 1))],
                )),
        ),
    decreases ts.len() - m.cursor,
{
    let c1 = m.cursor + 1;
    let idx = m.indice;
    if c1 == ts.len() - 1 {
        assert(paso(ts, s, m) == PasoMaquina::Termina(idx == s.len()));
    } else {
        let t = ts[c1];
        assert(token_simple(t));
        if idx < s.len() && valor_acepta(t.valor, s[idx]) {
            assert(racha(t.valor, s, idx) >= 1);
            let pila1 = m.pila.push((1usize, false));
            assert(extras(t, s, idx + 1, 1) == 0);
            let m2 = tras_fases(t, s, c1, idx + 1, 1, pila1);
            assert(m2.pila =~= pila1);
            assert(m2 == (Maquina { cursor: c1, indice: idx + 1, pila: pila1 }));
            assert(paso(ts, s, m) == PasoMaquina::Sigue(m2));
            lema_sin_regreso_push(m.pila, 1);
            lema_corre_simples_final(ts, s, m2, (f - 1) as nat);
            assert(corre(ts, s, m, f) == corre(ts, s, m2, (f - 1) as nat));
            assert((idx + 1 + (ts.len() - 1 - (c1 + 1)) == s.len() && (forall|k: int|
                c1 + 1 <= k < ts.len() - 1 ==> valor_acepta(
                    ts[k].valor,
                    s[idx + 1 + (k - (c1 + 1))],
                ))) == (idx + (ts.len() - 1 - c1) == s.len() && (forall|k: int|
                c1 <= k < ts.len() - 1 ==> valor_acepta(ts[k].valor, s[idx + (k - c1)])))) by {
                if idx + 1 + (ts.len() - 1 - (c1 + 1)) == s.len() && (forall|k: int|
                    c1 + 1 <= k < ts.len() - 1 ==> valor_acepta(
                        ts[k].valor,
                        s[idx + 1 + (k - (c1 + 1))],
                    )) {
                    assert forall|k: int|
                        c1 <= k < ts.len() - 1 implies valor_acepta(
                        ts[k].valor,
                        s[idx + (k - c1)],
                    ) by {
                        if k > c1 {
                            assert(valor_acepta(ts[k].valor, s[idx + 1 + (k - (c1 + 1))]));
                        }
                    }
                }
                if idx + (ts.len() - 1 - c1) == s.len() && (forall|k: int|
                    c1 <= k < ts.len() - 1 ==> valor_acepta(ts[k].valor, s[idx + (k - c1)])) {
                    assert forall|k: int|
                        c1 + 1 <= k < ts.len() - 1 implies valor_acepta(
                        ts[k].valor,
                        s[idx + 1 + (k - (c1 + 1))],
                    ) by {
                        assert(valor_acepta(ts[k].valor, s[idx + (k - c1)]));
                    }
                }
            }
        } else {
            assert(racha(t.valor, s, idx) == 0);
            assert(paso(ts, s, m) == PasoMaquina::Termina(false));
            if idx + (ts.len() - 1 - c1) == s.len() && (forall|k: int|
                c1 <= k < ts.len() - 1 ==> valor_acepta(ts[k].valor, s[idx + (k - c1)])) {
                assert(valor_acepta(ts[c1].valor, s[idx + (c1 - c1)]));
                assert(idx < s.len());
            }
        }
    }
}

/// A pattern of plain characters closed by a `$` compiles to the literal
/// tokens followed by an end anchor.
proof fn lema_compila_literales_final(
    cs: Seq<char>,
    j: int,
    tokens: Seq<TokenEspec>,
    exprs: Seq<Seq<TokenEspec>>,
)
    requires
        cs.len() >= 1,
        cs[cs.len() - 1] == '$',
        0 <= j <= cs.len() - 1,
        forall|k: int| j <= k < cs.len() - 1 ==> !es_metacaracter(cs[k]),
    ensures
        compila_desde(cs, j, tokens, exprs) == Ok::<_, crate::regex::ErrorCompilacion>(
            exprs.push(
                tokens + literales_espec(cs.subrange(j, cs.len() - 1)).push(
                    crate::regex::espec_anclaje_final(),
                ),
            ),
        ),
    decreases cs.len() - j,
{
    if j == cs.len() - 1 {
        assert(cs[j] == '$');
        assert(compila_desde(cs, j, tokens, exprs) == compila_desde(
            cs,
            j + 1,
            tokens.push(crate::regex::espec_anclaje_final()),
            exprs,
        ));
        assert(compila_desde(cs, j + 1, tokens.push(crate::regex::espec_anclaje_final()), exprs)
            == Ok::<_, crate::regex::ErrorCompilacion>(
            exprs.push(tokens.push(crate::regex::espec_anclaje_final())),
        ));
        assert(literales_espec(cs.subrange(j, cs.len() - 1)).len() == 0);
        assert(tokens + literales_espec(cs.subrange(j, cs.len() - 1)).push(
            crate::regex::espec_anclaje_final(),
        ) =~= tokens.push(crate::regex::espec_anclaje_final()));
    } else {
        let c = caracter_de(cs, j);
        assert(!es_metacaracter(cs[j]));
        lema_compila_literales_final(cs, j + 1, tokens.push(espec_literal(c)), exprs);
        assert(tokens.push(espec_literal(c)) + literales_espec(
            cs.subrange(j + 1, cs.len() - 1),
        ).push(crate::regex::espec_anclaje_final()) =~= tokens + literales_espec(
            cs.subrange(j, cs.len() - 1),
        ).push(crate::regex::espec_anclaje_final()));
    }
}

/// The end-anchor law: a non-empty pattern without metacharacters followed
/// by `$` matches a candidate exactly when the candidate ends with it.
/// (The bare pattern `$` is excluded: matching starts at character
/// positions strictly inside the candidate, so it matches nothing at all.)
pub proof fn ley_anclaje_final(aguja: Seq<char>, es: Seq<Expresion>, s: Seq<char>)
    requires
        sin_metacaracteres(aguja),
        aguja.len() > 0,
        aguja.len() + 2 < usize::MAX,
        compila(aguja + seq!['$']) matches Ok(m) && modelo_expresiones(es) == m,
    ensures
        regex_matchea(es, s) == termina_con(aguja, s),
{
    let cs = aguja + seq!['$'];
    let n = aguja.len() as int;
    assert(cs[cs.len() - 1] == '$');
    assert(forall|k: int| 0 <= k < n ==> cs[k] == aguja[k]);
    lema_compila_literales_final(cs, 0, Seq::empty(), Seq::empty());
    assert(cs.subrange(0, n) =~= aguja);
    assert(Seq::<TokenEspec>::empty() + literales_espec(aguja).push(
        crate::regex::espec_anclaje_final(),
    ) =~= literales_espec(aguja).push(crate::regex::espec_anclaje_final()));
    assert(modelo_expresiones(es).len() == es.len());
    assert(es.len() == 1);
    assert(modelo_expresiones(es)[0] == modelo_tokens(es[0].tokens@));
    let ts = es[0].tokens@;
    let mts = literales_espec(aguja).push(crate::regex::espec_anclaje_final());
    assert(modelo_tokens(ts) == mts);
    assert(modelo_tokens(ts).len() == ts.len());
    assert(ts.len() == n + 1);
    assert forall|k: int| 0 <= k < n implies ts[k].valor == ValorRegexToken::Literal(aguja[k])
        && token_simple(ts[k]) by {
        let c = caracter_de(aguja, k);
        assert(modelo_tokens(ts)[k] == modelo_token(ts[k]));
        assert(mts[k] == espec_literal(c));
        lema_token_de_literal(ts[k], c);
    }
    assert(modelo_tokens(ts)[n] == modelo_token(ts[n]));
    assert(mts[n] == crate::regex::espec_anclaje_final());
    lema_token_de_anclaje(ts[n], false);
    assert(!(ts[0].valor is AnclajeInicio));
    assert forall|i: int| 0 <= i < s.len() implies matchea_desde(ts, s, i) == (i + n == s.len()
        && (forall|k: int| 0 <= k < n ==> valor_acepta(ts[k].valor, s[i + k]))) by {
        lema_corre_simples_final(ts, s, maquina_inicial(i), combustible_total());
    }
    if regex_matchea(es, s) {
        let q = choose|q: int| 0 <= q < es.len() && expresion_matchea(es[q].tokens@, s);
        assert(q == 0);
        let i = choose|i: int| 0 <= i < s.len() && matchea_desde(ts, s, i);
        assert(i + n == s.len());
        assert(s.subrange(s.len() - n, s.len() as int) =~= aguja) by {
            assert(forall|k: int|
                0 <= k < n ==> s.subrange(i, s.len() as int)[k] == s[i + k] && valor_acepta(
                    ts[k].valor,
                    s[i + k],
                ));
        }
        assert(termina_con(aguja, s));
    }
    if termina_con(aguja, s) {
        let i = s.len() - n;
        assert(0 <= i < s.len());
        assert forall|k: int| 0 <= k < n implies valor_acepta(ts[k].valor, s[i + k]) by {
            assert(s.subrange(i, s.len() as int)[k] == s[i + k]);
            assert(aguja[k] == s[i + k]);
        }
        assert(matchea_desde(ts, s, i));
        assert(expresion_matchea(ts, s));
        assert(regex_matchea(es, s));
    }
}

/// A bracket body free of inner brackets scans up to the first `]` after
/// it.
proof fn lema_escanea_bracket_literales(cs: Seq<char>, q: int, j: int, p: int)
    requires
        0 <= q <= j <= p < cs.len(),
        cs[p] == ']',
        forall|k: int| j <= k < p ==> cs[k] != '[' && cs[k] != ']',
    ensures
        escanea_bracket(cs, q, j, false) == Some(p),
    decreases p - j,
{
    if j < p {
        lema_escanea_bracket_literales(cs, q, j + 1, p);
    }
}

/// Some character of the body equals the candidate character.
pub open spec fn contiene(cuerpo: Seq<char>, c: char) -> bool {
    exists|k: int| 0 <= k < cuerpo.len() && cuerpo[k] == c
}

/// A bracket body free of inner `[` parses to one literal predicate per
/// character.
proof fn lema_parsea_literales(cont: Seq<char>, j: int)
    requires
        0 <= j <= cont.len(),
        forall|k: int| j <= k < cont.len() ==> cont[k] != '[',
    ensures
        parsea_resto(cont, j) matches Ok(cls) && cls.len() == cont.len() - j && (forall|i: int|
            0 <= i < cls.len() ==> cls[i] == ClaseCaracter::Literal(cont[j + i])),
    decreases cont.len() - j,
{
    if j == cont.len() {
    } else {
        let c = caracter_de(cont, j);
        lema_parsea_literales(cont, j + 1);
        let resto = parsea_resto(cont, j + 1)->Ok_0;
        assert(parsea_resto(cont, j) == Ok::<
            _,
            crate::error_expresion_bracket::ErrorExpresionBracket,
        >(seq![ClaseCaracter::Literal(c)] + resto));
        let cls = seq![ClaseCaracter::Literal(c)] + resto;
        assert forall|i: int| 0 <= i < cls.len() implies cls[i] == ClaseCaracter::Literal(
            cont[j + i],
        ) by {
            if i == 0 {
                assert(cls[0] == ClaseCaracter::Literal(c));
            } else {
                assert(cls[i] == resto[i - 1]);
            }
        }
    }
}

/// The bracket duality law: over a body of plain literal predicates, a
/// single-character candidate matches the bracket expression exactly when
/// it does not match the negated one.
pub proof fn ley_dualidad_brackets(
    cuerpo: Seq<char>,
    es_directo: Seq<Expresion>,
    es_negado: Seq<Expresion>,
    c: char,
)
    requires
        cuerpo.len() > 0,
        forall|k: int| 0 <= k < cuerpo.len() ==> cuerpo[k] != '[' && cuerpo[k] != ']',
        cuerpo[0] != '^',
        !(cuerpo[0] == ':' && cuerpo[cuerpo.len() - 1] == ':'),
        compila(seq!['['] + cuerpo + seq![']']) matches Ok(m1) && modelo_expresiones(es_directo)
            == m1,
        compila(seq!['[', '^'] + cuerpo + seq![']']) matches Ok(m2) && modelo_expresiones(
            es_negado,
        ) == m2,
    ensures
        regex_matchea(es_directo, seq![c]) == !regex_matchea(es_negado, seq![c]),
{
    lema_forma_bracket(cuerpo, es_directo, false, c);
    lema_forma_bracket(cuerpo, es_negado, true, c);
    let ts1 = es_directo[0].tokens@;
    let ts2 = es_negado[0].tokens@;
    lema_matchea_un_simple(ts1, seq![c]);
    lema_matchea_un_simple(ts2, seq![c]);
    assert(seq![c][0] == c);
    assert(regex_matchea(es_directo, seq![c]) == valor_acepta(ts1[0].valor, c)) by {
        if regex_matchea(es_directo, seq![c]) {
            let q = choose|q: int|
                0 <= q < es_directo.len() && expresion_matchea(es_directo[q].tokens@, seq![c]);
            assert(q == 0);
        }
    }
    assert(regex_matchea(es_negado, seq![c]) == valor_acepta(ts2[0].valor, c)) by {
        if regex_matchea(es_negado, seq![c]) {
            let q = choose|q: int|
                0 <= q < es_negado.len() && expresion_matchea(es_negado[q].tokens@, seq![c]);
            assert(q == 0);
        }
    }
}

/// A compiled bracket pattern over literal predicates is one alternative
/// holding one single-character token that accepts exactly the characters
/// of the body — or exactly the others, when negated.
proof fn lema_forma_bracket(cuerpo: Seq<char>, es: Seq<Expresion>, negada: bool, c: char)
    requires
        cuerpo.len() > 0,
        forall|k: int| 0 <= k < cuerpo.len() ==> cuerpo[k] != '[' && cuerpo[k] != ']',
        cuerpo[0] != '^',
        !(cuerpo[0] == ':' && cuerpo[cuerpo.len() - 1] == ':'),
        ({
            let cs = if negada {
                seq!['[', '^'] + cuerpo + seq![']']
            } else {
                seq!['['] + cuerpo + seq![']']
            };
            compila(cs) matches Ok(m) && modelo_expresiones(es) == m
        }),
    ensures
        es.len() == 1,
        es[0].tokens@.len() == 1,
        token_simple(es[0].tokens@[0]),
        !negada ==> valor_acepta(es[0].tokens@[0].valor, c) == contiene(cuerpo, c),
        negada ==> valor_acepta(es[0].tokens@[0].valor, c) == !contiene(cuerpo, c),
{
    let cs = if negada {
        seq!['[', '^'] + cuerpo + seq![']']
    } else {
        seq!['['] + cuerpo + seq![']']
    };
    let n = cuerpo.len() as int;
    let p = cs.len() - 1;
    assert(cs[0] == '[');
    assert(cs[p] == ']');
    let q = 1;
    assert(forall|k: int| q <= k < p ==> cs[k] != '[' && cs[k] != ']') by {
        if negada {
            assert(forall|k: int| 2 <= k < p ==> cs[k] == cuerpo[k - 2]);
        } else {
            assert(forall|k: int| 1 <= k < p ==> cs[k] == cuerpo[k - 1]);
        }
    }
    lema_escanea_bracket_literales(cs, q, q, p);
    let cont = cs.subrange(q, p);
    let desde: int = if negada {
        1
    } else {
        0
    };
    if negada {
        assert(cont =~= seq!['^'] + cuerpo);
        assert(cont[0] == '^');
        assert(forall|k: int| 1 <= k < cont.len() ==> cont[k] == cuerpo[k - 1]);
        assert(!crate::expresion_bracket::sintaxis_mala(cont));
    } else {
        assert(cont =~= cuerpo);
        assert(!crate::expresion_bracket::sintaxis_mala(cont)) by {
            if crate::expresion_bracket::sintaxis_mala(cont) {
                assert(cont[0] == ':' && cont[cont.len() - 1] == ':');
            }
        }
    }
    lema_parsea_literales(cont, desde);
    let cls = parsea_resto(cont, desde)->Ok_0;
    assert(cls.len() == n);
    assert(forall|i: int| 0 <= i < n ==> cls[i] == ClaseCaracter::Literal(cuerpo[i]));
    assert(resultado_bracket(cs, q) == Ok::<
        _,
        crate::error_expresion_bracket::ErrorExpresionBracket,
    >((negada, cls)));
    let tok = espec_bracket((negada, cls));
    assert(compila_desde(cs, p + 1, Seq::<TokenEspec>::empty().push(tok), Seq::empty()) == Ok::<
        _,
        crate::regex::ErrorCompilacion,
    >(Seq::<Seq<TokenEspec>>::empty().push(Seq::<TokenEspec>::empty().push(tok))));
    assert(compila(cs) == Ok::<_, crate::regex::ErrorCompilacion>(
        Seq::<Seq<TokenEspec>>::empty().push(Seq::<TokenEspec>::empty().push(tok)),
    ));
    assert(modelo_expresiones(es).len() == es.len());
    assert(es.len() == 1);
    assert(modelo_expresiones(es)[0] == modelo_tokens(es[0].tokens@));
    assert(modelo_tokens(es[0].tokens@).len() == es[0].tokens@.len());
    assert(es[0].tokens@.len() == 1);
    assert(modelo_tokens(es[0].tokens@)[0] == modelo_token(es[0].tokens@[0]));
    assert(Seq::<TokenEspec>::empty().push(tok)[0] == tok);
    let t = es[0].tokens@[0];
    assert(modelo_token(t) == tok);
    match t.valor {
        ValorRegexToken::Literal(_) => {},
        ValorRegexToken::Comodin => {},
        ValorRegexToken::AnclajeInicio => {},
        ValorRegexToken::AnclajeFinal => {},
        ValorRegexToken::ExpresionBracket(lista) => {
            assert(lista@ == cls);
            assert(alguna_clase_acepta(lista@, c) == contiene(cuerpo, c)) by {
                if alguna_clase_acepta(lista@, c) {
                    let k = choose|k: int|
                        0 <= k < lista@.len() && clase_acepta(lista@[k], c);
                    assert(cls[k] == ClaseCaracter::Literal(cuerpo[k]));
                    assert(cuerpo[k] == c);
                }
                if contiene(cuerpo, c) {
                    let k = choose|k: int| 0 <= k < cuerpo.len() && cuerpo[k] == c;
                    assert(cls[k] == ClaseCaracter::Literal(cuerpo[k]));
                    assert(clase_acepta(lista@[k], c));
                }
            }
        },
        ValorRegexToken::ExpresionBracketNegada(lista) => {
            assert(lista@ == cls);
            assert(alguna_clase_acepta(lista@, c) == contiene(cuerpo, c)) by {
                if alguna_clase_acepta(lista@, c) {
                    let k = choose|k: int|
                        0 <= k < lista@.len() && clase_acepta(lista@[k], c);
                    assert(cls[k] == ClaseCaracter::Literal(cuerpo[k]));
                    assert(cuerpo[k] == c);
                }
                if contiene(cuerpo, c) {
                    let k = choose|k: int| 0 <= k < cuerpo.len() && cuerpo[k] == c;
                    assert(cls[k] == ClaseCaracter::Literal(cuerpo[k]));
                    assert(clase_acepta(lista@[k], c));
                }
            }
        },
    }
}

/// A one-token alternative of a single-character token matches a
/// single-character candidate exactly when the token accepts the character.
proof fn lema_matchea_un_simple(ts: Seq<RegexToken>, s: Seq<char>)
    requires
        ts.len() == 1,
        token_simple(ts[0]),
        s.len() == 1,
    ensures
        expresion_matchea(ts, s) == valor_acepta(ts[0].valor, s[0]),
{
    lema_corre_simples(ts, s, maquina_inicial(0), combustible_total());
    assert(matchea_desde(ts, s, 0) == coinciden_desde(ts, s, 0, 0));
    assert(coinciden_desde(ts, s, 0, 0) == valor_acepta(ts[0].valor, s[0])) by {
        if valor_acepta(ts[0].valor, s[0]) {
            assert(forall|k: int| 0 <= k < 1 ==> valor_acepta(ts[k].valor, s[0 + (k - 0)]));
        }
    }
    if expresion_matchea(ts, s) {
        let i = choose|i: int| 0 <= i < s.len() && matchea_desde(ts, s, i);
        assert(i == 0);
    }
    if matchea_desde(ts, s, 0) {
        assert(expresion_matchea(ts, s));
    }
}

/// Scanning a range body walks straight over digits.
proof fn lema_escanea_digitos(cs: Seq<char>, j: int, fin: int, comas: int)
    requires
        0 <= j <= fin <= cs.len(),
        0 <= comas <= 1,
        forall|k: int| j <= k < fin ==> es_digito(cs[k]),
    ensures
        escanea_rango(cs, j, comas) == escanea_rango(cs, fin, comas),
    decreases fin - j,
{
    if j < fin {
        assert(es_digito(cs[j]));
        lema_escanea_digitos(cs, j + 1, fin, comas);
    }
}

/// The first comma after a run of digits sits right behind them.
proof fn lema_posicion_coma_digitos(cont: Seq<char>, j: int, fin: int)
    requires
        0 <= j <= fin < cont.len(),
        forall|k: int| j <= k < fin ==> es_digito(cont[k]),
        cont[fin] == ',',
    ensures
        posicion_coma(cont, j) == fin,
    decreases fin - j,
{
    if j < fin {
        assert(es_digito(cont[j]));
        assert(cont[j] != ',');
        lema_posicion_coma_digitos(cont, j + 1, fin);
    }
}

/// On a single repeated token the machine accepts exactly when the greedy
/// run from the start position covers the lower bound.
proof fn lema_corre_rango(ts: Seq<RegexToken>, s: Seq<char>, i: int, f: nat)
    requires
        ts.len() == 1,
        !(ts[0].valor is AnclajeInicio),
        !(ts[0].valor is AnclajeFinal),
        ts[0].repeticion.min is Some,
        0 <= i <= s.len(),
        f >= 2,
    ensures
        corre(ts, s, maquina_inicial(i), f) == Some(
            racha(ts[0].valor, s, i) >= ts[0].repeticion.min->0,
        ),
{
    let t = ts[0];
    let n = t.repeticion.min->0;
    let m0 = maquina_inicial(i);
    assert(!hay_regreso(m0.pila)) by {
        if hay_regreso(m0.pila) {
            let k = choose|k: int| 0 <= k < m0.pila.len() && m0.pila[k].1;
        }
    }
    if racha(t.valor, s, i) >= n {
        lema_racha_cota(t.valor, s, i);
        let pila1 = if n > 0 {
            m0.pila.push((n, false))
        } else {
            m0.pila
        };
        let m2 = tras_fases(t, s, 0, i + n, n as int, pila1);
        assert(paso(ts, s, m0) == PasoMaquina::Sigue(m2));
        assert(m2.cursor == 0);
        assert(paso(ts, s, m2) == PasoMaquina::Termina(true));
        assert(corre(ts, s, m2, (f - 1) as nat) == Some(true));
    } else {
        assert(paso(ts, s, m0) == PasoMaquina::Termina(false));
    }
}

/// A token whose mirror is a literal with a repetition range is that
/// literal with that range.
proof fn lema_token_de_literal_rango(t: RegexToken, c: char, rep: RepeticionRegexToken)
    requires
        modelo_token(t) == (TokenEspec {
            valor: ValorEspec::Literal(c),
            repeticion: rep,
            repeticion_modificable: false,
        }),
    ensures
        t.valor == ValorRegexToken::Literal(c),
        t.repeticion == rep,
{
    match t.valor {
        ValorRegexToken::Literal(_) => {},
        ValorRegexToken::Comodin => {},
        ValorRegexToken::AnclajeInicio => {},
        ValorRegexToken::AnclajeFinal => {},
        ValorRegexToken::ExpresionBracket(_) => {},
        ValorRegexToken::ExpresionBracketNegada(_) => {},
    }
}

/// The repetition-bound law: the pattern `a{n,m}` (with both bounds written
/// in digits and `n <= m`) matches a candidate exactly when some position
/// strictly inside it starts a run of at least `n` consecutive `a`s.  The
/// upper bound decides nothing here: a longer run always contains an
/// accepted one, and the matcher stops consuming at `m` occurrences.
pub proof fn ley_cuantificador(
    dn: Seq<char>,
    dm: Seq<char>,
    n: usize,
    m: usize,
    es: Seq<Expresion>,
    s: Seq<char>,
)
    requires
        campo_numerico(dn) == Some(n),
        campo_numerico(dm) == Some(m),
        n <= m,
        ({
            let pat = seq!['a', '{'] + dn + seq![','] + dm + seq!['}'];
            compila(pat) matches Ok(mm) && modelo_expresiones(es) == mm
        }),
    ensures
        regex_matchea(es, s) == (exists|i: int|
            0 <= i < s.len() && racha(ValorRegexToken::Literal('a'), s, i) >= n),
{
    let pat = seq!['a', '{'] + dn + seq![','] + dm + seq!['}'];
    let ln = dn.len() as int;
    let lm = dm.len() as int;
    assert(ln >= 1 && lm >= 1);
    assert(pat[0] == 'a' && pat[1] == '{');
    assert(forall|k: int| 0 <= k < ln ==> pat[2 + k] == dn[k]);
    assert(pat[2 + ln] == ',');
    assert(forall|k: int| 0 <= k < lm ==> pat[3 + ln + k] == dm[k]);
    let f = pat.len() - 1;
    assert(pat[f] == '}');
    assert(forall|k: int| 2 <= k < 2 + ln ==> es_digito(pat[k]));
    assert(forall|k: int| 3 + ln <= k < 3 + ln + lm ==> es_digito(pat[k]));
    lema_escanea_digitos(pat, 2, 2 + ln, 0);
    assert(escanea_rango(pat, 2 + ln, 0) == escanea_rango(pat, 3 + ln, 1));
    lema_escanea_digitos(pat, 3 + ln, 3 + ln + lm, 1);
    assert(escanea_rango(pat, 3 + ln + lm, 1) == EscaneoRango::Cierre(f));
    assert(escanea_rango(pat, 2, 0) == EscaneoRango::Cierre(f));
    let cont = pat.subrange(2, f);
    assert(cont.len() == ln + 1 + lm);
    assert(forall|k: int| 0 <= k < ln ==> cont[k] == dn[k]);
    assert(cont[ln] == ',');
    assert(forall|k: int| 0 <= k < lm ==> cont[ln + 1 + k] == dm[k]);
    lema_posicion_coma_digitos(cont, 0, ln);
    assert(cont.subrange(0, ln) =~= dn);
    assert(cont.subrange(ln + 1, cont.len() as int) =~= dm);
    let rep = RepeticionRegexToken { min: Some(n), max: Some(m) };
    assert(valores_del_contenido(cont) == (Some(n), Some(m)));
    assert(resultado_rango(pat, 2) == Ok::<_, crate::error_regex::ErrorRegex>(Some(rep)));
    let tok0 = espec_literal('a');
    let tok = TokenEspec {
        valor: ValorEspec::Literal('a'),
        repeticion: rep,
        repeticion_modificable: false,
    };
    assert(compila_desde(pat, 0, Seq::empty(), Seq::empty()) == compila_desde(
        pat,
        1,
        Seq::<TokenEspec>::empty().push(tok0),
        Seq::empty(),
    ));
    let lista0 = Seq::<TokenEspec>::empty().push(tok0);
    assert(lista0.len() == 1 && lista0.last() == tok0);
    assert(crate::rango_repeticion::resultado_repeticion('{', pat, 2) == Ok::<
        _,
        crate::error_regex::ErrorRegex,
    >(Some(rep)));
    assert(crate::rango_repeticion::pos_tras_repeticion('{', pat, 2) == f);
    assert(compila_desde(pat, 1, lista0, Seq::empty()) == compila_desde(
        pat,
        f + 1,
        lista0.update(0, tok),
        Seq::empty(),
    ));
    assert(lista0.update(0, tok) =~= Seq::<TokenEspec>::empty().push(tok));
    assert(compila_desde(pat, f + 1, lista0.update(0, tok), Seq::empty()) == Ok::<
        _,
        crate::regex::ErrorCompilacion,
    >(Seq::<Seq<TokenEspec>>::empty().push(lista0.update(0, tok))));
    assert(modelo_expresiones(es).len() == es.len());
    assert(es.len() == 1);
    assert(modelo_expresiones(es)[0] == modelo_tokens(es[0].tokens@));
    let ts = es[0].tokens@;
    assert(modelo_tokens(ts).len() == ts.len());
    assert(ts.len() == 1);
    assert(modelo_tokens(ts)[0] == modelo_token(ts[0]));
    assert(modelo_token(ts[0]) == tok);
    lema_token_de_literal_rango(ts[0], 'a', rep);
    assert(!(ts[0].valor is AnclajeInicio));
    assert forall|i: int| 0 <= i < s.len() implies matchea_desde(ts, s, i) == (racha(
        ValorRegexToken::Literal('a'),
        s,
        i,
    ) >= n) by {
        lema_corre_rango(ts, s, i, combustible_total());
    }
    if regex_matchea(es, s) {
        let q = choose|q: int| 0 <= q < es.len() && expresion_matchea(es[q].tokens@, s);
        assert(q == 0);
    }
    if exists|i: int| 0 <= i < s.len() && racha(ValorRegexToken::Literal('a'), s, i) >= n {
        let i = choose|i: int|
            0 <= i < s.len() && racha(ValorRegexToken::Literal('a'), s, i) >= n;
        assert(matchea_desde(ts, s, i));
        assert(expresion_matchea(ts, s));
        assert(regex_matchea(es, s));
    }
}

/// A range scan that stops before the end of a pattern is unmoved by
/// anything appended to the pattern.
proof fn lema_escanea_rango_prefijo(cs1: Seq<char>, cs2: Seq<char>, j: int, comas: int)
    requires
        cs1.len() <= cs2.len(),
        forall|k: int| 0 <= k < cs1.len() ==> cs1[k] == cs2[k],
        0 <= j,
        !(escanea_rango(cs1, j, comas) is Agotado),
    ensures
        escanea_rango(cs2, j, comas) == escanea_rango(cs1, j, comas),
    decreases cs1.len() - j,
{
    if j < cs1.len() && comas <= 1 {
        if es_digito(cs1[j]) {
            lema_escanea_rango_prefijo(cs1, cs2, j + 1, comas);
        } else if cs1[j] == ',' {
            lema_escanea_rango_prefijo(cs1, cs2, j + 1, comas + 1);
        }
    }
}

/// A range scan that runs off the end of a pattern stops at a `|` appended
/// to it: with at most one comma seen it makes the brace a literal, with
/// two it is the content error.
proof fn lema_escanea_rango_agotado(a: Seq<char>, cs2: Seq<char>, j: int, comas: int)
    requires
        cs2.len() > a.len(),
        forall|k: int| 0 <= k < a.len() ==> a[k] == cs2[k],
        cs2[a.len() as int] == '|',
        0 <= j <= a.len(),
        escanea_rango(a, j, comas) is Agotado,
    ensures
        escanea_rango(cs2, j, comas) == EscaneoRango::Corte(a.len() as int) || escanea_rango(
            cs2,
            j,
            comas,
        ) matches EscaneoRango::Invalido(_),
    decreases a.len() - j,
{
    if j == a.len() {
    } else {
        if comas > 1 {
            assert(escanea_rango(a, j, comas) == EscaneoRango::Invalido(j));
        } else if es_digito(a[j]) {
            lema_escanea_rango_agotado(a, cs2, j + 1, comas);
        } else if a[j] == ',' {
            lema_escanea_rango_agotado(a, cs2, j + 1, comas + 1);
        } else {
            assert(!(escanea_rango(a, j, comas) is Agotado));
        }
    }
}

/// A bracket scan that finds its closing bracket is unmoved by anything
/// appended to the pattern.
proof fn lema_escanea_bracket_prefijo(cs1: Seq<char>, cs2: Seq<char>, q: int, j: int, ab: bool)
    requires
        cs1.len() <= cs2.len(),
        forall|k: int| 0 <= k < cs1.len() ==> cs1[k] == cs2[k],
        0 <= q <= j,
        escanea_bracket(cs1, q, j, ab) is Some,
    ensures
        escanea_bracket(cs2, q, j, ab) == escanea_bracket(cs1, q, j, ab),
    decreases cs1.len() - j,
{
    crate::expresion_bracket::lema_escanea_bracket_cota(cs1, q, j, ab);
    let p = escanea_bracket(cs1, q, j, ab)->0;
    assert(j <= p < cs1.len());
    assert(cs1.subrange(q, j) =~= cs2.subrange(q, j));
    if cs1[j] == ']' {
        if !crate::expresion_bracket::puede_cerrar(ab, cs1.subrange(q, j)) {
            lema_escanea_bracket_prefijo(cs1, cs2, q, j + 1, false);
        }
    } else if cs1[j] == '[' {
        assert(j + 1 < cs1.len()) by {
            if j + 1 >= cs1.len() {
                assert(escanea_bracket(cs1, q, j, ab) == escanea_bracket(cs1, q, j + 1, ab));
                assert(escanea_bracket(cs1, q, j + 1, ab) is None);
            }
        }
        let ab2 = if j + 1 < cs1.len() && cs1[j + 1] == ':' {
            true
        } else {
            ab
        };
        assert((if j + 1 < cs2.len() && cs2[j + 1] == ':' {
            true
        } else {
            ab
        }) == ab2);
        lema_escanea_bracket_prefijo(cs1, cs2, q, j + 1, ab2);
    } else {
        lema_escanea_bracket_prefijo(cs1, cs2, q, j + 1, ab);
    }
}

/// A range scan inside the tail of a pattern sees only the tail, shifted.
proof fn lema_escanea_rango_despl(cs: Seq<char>, b: Seq<char>, off: int, j2: int, comas: int)
    requires
        0 <= off,
        cs.len() == off + b.len(),
        forall|k: int| 0 <= k < b.len() ==> cs[off + k] == b[k],
        0 <= j2,
    ensures
        match escanea_rango(b, j2, comas) {
            EscaneoRango::Agotado => escanea_rango(cs, off + j2, comas) == EscaneoRango::Agotado,
            EscaneoRango::Invalido(p) => escanea_rango(cs, off + j2, comas)
                == EscaneoRango::Invalido(off + p),
            EscaneoRango::Corte(p) => escanea_rango(cs, off + j2, comas) == EscaneoRango::Corte(
                off + p,
            ),
            EscaneoRango::Cierre(p) => escanea_rango(cs, off + j2, comas) == EscaneoRango::Cierre(
                off + p,
            ),
        },
    decreases b.len() - j2,
{
    if j2 < b.len() && comas <= 1 {
        assert(cs[off + j2] == b[j2]);
        if es_digito(b[j2]) {
            lema_escanea_rango_despl(cs, b, off, j2 + 1, comas);
        } else if b[j2] == ',' {
            lema_escanea_rango_despl(cs, b, off, j2 + 1, comas + 1);
        }
    } else if j2 < b.len() {
        assert(cs[off + j2] == b[j2]);
    }
}

/// A bracket scan inside the tail of a pattern sees only the tail, shifted.
proof fn lema_escanea_bracket_despl(
    cs: Seq<char>,
    b: Seq<char>,
    off: int,
    q2: int,
    j2: int,
    ab: bool,
)
    requires
        0 <= off,
        cs.len() == off + b.len(),
        forall|k: int| 0 <= k < b.len() ==> cs[off + k] == b[k],
        0 <= q2 <= j2,
    ensures
        match escanea_bracket(b, q2, j2, ab) {
            None => escanea_bracket(cs, off + q2, off + j2, ab) is None,
            Some(p) => escanea_bracket(cs, off + q2, off + j2, ab) == Some(off + p),
        },
    decreases b.len() - j2,
{
    if j2 < b.len() {
        assert(cs[off + j2] == b[j2]);
        assert(cs.subrange(off + q2, off + j2) =~= b.subrange(q2, j2));
        if b[j2] == ']' {
            if !crate::expresion_bracket::puede_cerrar(ab, b.subrange(q2, j2)) {
                lema_escanea_bracket_despl(cs, b, off, q2, j2 + 1, false);
            }
        } else if b[j2] == '[' {
            let ab2 = if j2 + 1 < b.len() && b[j2 + 1] == ':' {
                true
            } else {
                ab
            };
            assert((if off + j2 + 1 < cs.len() && cs[off + j2 + 1] == ':' {
                true
            } else {
                ab
            }) == ab2) by {
                if j2 + 1 < b.len() {
                    assert(cs[off + j2 + 1] == b[j2 + 1]);
                }
            }
            lema_escanea_bracket_despl(cs, b, off, q2, j2 + 1, ab2);
        } else {
            lema_escanea_bracket_despl(cs, b, off, q2, j2 + 1, ab);
        }
    }
}

/// Alternatives already closed ride through compilation untouched: running
/// the compiler with a non-empty accumulator prepends it to the result.
proof fn lema_compila_acumulador(
    cs: Seq<char>,
    j: int,
    tokens: Seq<TokenEspec>,
    pre: Seq<Seq<TokenEspec>>,
)
    requires
        0 <= j,
    ensures
        match compila_desde(cs, j, tokens, Seq::empty()) {
            Ok(r) => compila_desde(cs, j, tokens, pre) == Ok::<_, crate::regex::ErrorCompilacion>(
                pre + r,
            ),
            Err(e) => compila_desde(cs, j, tokens, pre) == Err::<
                Seq<Seq<TokenEspec>>,
                crate::regex::ErrorCompilacion,
            >(e),
        },
    decreases cs.len() - j,
{
    if j >= cs.len() {
        assert(pre + Seq::<Seq<TokenEspec>>::empty().push(tokens) =~= pre.push(tokens));
    } else {
        let c = cs[j];
        if c == '?' || c == '*' || c == '+' || c == '{' {
            match crate::rango_repeticion::resultado_repeticion(c, cs, j + 1) {
                Err(_) => {},
                Ok(Some(rep)) => {
                    if tokens.len() > 0 && tokens.last().repeticion_modificable {
                        if c == '{' {
                            lema_escanea_rango_cota(cs, j + 1, 0);
                        }
                        lema_compila_acumulador(
                            cs,
                            crate::rango_repeticion::pos_tras_repeticion(c, cs, j + 1) + 1,
                            tokens.update(
                                tokens.len() - 1,
                                TokenEspec {
                                    valor: tokens.last().valor,
                                    repeticion: rep,
                                    repeticion_modificable: false,
                                },
                            ),
                            pre,
                        );
                    }
                },
                Ok(None) => {
                    lema_compila_acumulador(cs, j + 1, tokens.push(espec_literal('{')), pre);
                },
            }
        } else if c == '|' {
            lema_compila_acumulador(cs, j + 1, Seq::empty(), pre.push(tokens));
            lema_compila_acumulador(cs, j + 1, Seq::empty(), Seq::<
                Seq<TokenEspec>,
            >::empty().push(tokens));
            match compila_desde(cs, j + 1, Seq::empty(), Seq::empty()) {
                Ok(r) => {
                    assert(pre.push(tokens) + r =~= pre + (Seq::<
                        Seq<TokenEspec>,
                    >::empty().push(tokens) + r));
                },
                Err(_) => {},
            }
        } else if c == '.' {
            lema_compila_acumulador(cs, j + 1, tokens.push(crate::regex::espec_comodin()), pre);
        } else if c == '\\' {
            if j + 1 < cs.len() {
                lema_compila_acumulador(cs, j + 2, tokens.push(espec_literal(cs[j + 1])), pre);
            }
        } else if c == '^' {
            if j == 0 || cs[j - 1] == '|' {
                lema_compila_acumulador(
                    cs,
                    j + 1,
                    tokens.push(crate::regex::espec_anclaje_inicio()),
                    pre,
                );
            } else if cs[j - 1] == '^' {
                lema_compila_acumulador(cs, j + 1, tokens, pre);
            }
        } else if c == '$' {
            lema_compila_acumulador(
                cs,
                j + 1,
                tokens.push(crate::regex::espec_anclaje_final()),
                pre,
            );
        } else if c == '[' {
            match resultado_bracket(cs, j + 1) {
                Err(_) => {},
                Ok(par) => {
                    crate::expresion_bracket::lema_escanea_bracket_cota(cs, j + 1, j + 1, false);
                    lema_compila_acumulador(
                        cs,
                        crate::expresion_bracket::pos_tras_bracket(cs, j + 1) + 1,
                        tokens.push(espec_bracket(par)),
                        pre,
                    );
                },
            }
        } else {
            lema_compila_acumulador(cs, j + 1, tokens.push(espec_literal(c)), pre);
        }
    }
}

/// Compiling a pattern that continues with `|` and more runs the prefix
/// exactly as it would run alone, then continues after the bar with the
/// prefix's alternatives closed — provided the prefix also compiles with
/// just the bar behind it.
proof fn lema_compila_prefijo(
    a: Seq<char>,
    cola: Seq<char>,
    j: int,
    tokens: Seq<TokenEspec>,
    exprs: Seq<Seq<TokenEspec>>,
)
    requires
        0 <= j <= a.len(),
        cola.len() >= 1,
        cola[0] == '|',
        compila_desde(a, j, tokens, exprs) is Ok,
        compila_desde(a + seq!['|'], j, tokens, exprs) is Ok,
    ensures
        compila_desde(a + cola, j, tokens, exprs) == compila_desde(
            a + cola,
            a.len() as int + 1,
            Seq::empty(),
            compila_desde(a, j, tokens, exprs)->Ok_0,
        ),
    decreases a.len() - j,
{
    let cs = a + cola;
    let ap = a + seq!['|'];
    assert(forall|k: int| 0 <= k < a.len() ==> cs[k] == a[k] && ap[k] == a[k]);
    assert(cs[a.len() as int] == '|' && ap[a.len() as int] == '|');
    if j == a.len() {
        assert(compila_desde(a, j, tokens, exprs) == Ok::<_, crate::regex::ErrorCompilacion>(
            exprs.push(tokens),
        ));
        assert(compila_desde(cs, j, tokens, exprs) == compila_desde(
            cs,
            j + 1,
            Seq::empty(),
            exprs.push(tokens),
        ));
    } else {
        let c = a[j];
        assert(cs[j] == c && ap[j] == c);
        if c == '?' || c == '*' || c == '+' || c == '{' {
            if c == '{' {
                let q = j + 1;
                match escanea_rango(a, q, 0) {
                    EscaneoRango::Agotado => {
                        lema_escanea_rango_agotado(a, ap, q, 0);
                        if escanea_rango(ap, q, 0) matches EscaneoRango::Invalido(_) {
                            assert(compila_desde(ap, j, tokens, exprs) is Err);
                        }
                        assert(escanea_rango(ap, q, 0) == EscaneoRango::Corte(a.len() as int));
                        lema_escanea_rango_prefijo(ap, cs, q, 0);
                        assert(escanea_rango(cs, q, 0) == EscaneoRango::Corte(a.len() as int));
                    },
                    EscaneoRango::Invalido(_) => {
                        assert(compila_desde(a, j, tokens, exprs) is Err);
                    },
                    EscaneoRango::Corte(p) => {
                        lema_escanea_rango_prefijo(a, ap, q, 0);
                        lema_escanea_rango_prefijo(a, cs, q, 0);
                    },
                    EscaneoRango::Cierre(f) => {
                        lema_escanea_rango_cota(a, q, 0);
                        lema_escanea_rango_prefijo(a, ap, q, 0);
                        lema_escanea_rango_prefijo(a, cs, q, 0);
                        assert(cs.subrange(q, f) =~= a.subrange(q, f));
                        assert(ap.subrange(q, f) =~= a.subrange(q, f));
                    },
                }
            }
            match crate::rango_repeticion::resultado_repeticion(c, a, j + 1) {
                Err(_) => {
                    assert(compila_desde(a, j, tokens, exprs) is Err);
                },
                Ok(Some(rep)) => {
                    assert(crate::rango_repeticion::resultado_repeticion(c, cs, j + 1) == Ok::<
                        _,
                        crate::error_regex::ErrorRegex,
                    >(Some(rep)));
                    assert(crate::rango_repeticion::resultado_repeticion(c, ap, j + 1) == Ok::<
                        _,
                        crate::error_regex::ErrorRegex,
                    >(Some(rep)));
                    if tokens.len() == 0 || !tokens.last().repeticion_modificable {
                        assert(compila_desde(a, j, tokens, exprs) is Err);
                    } else {
                        let pt = crate::rango_repeticion::pos_tras_repeticion(c, a, j + 1);
                        assert(crate::rango_repeticion::pos_tras_repeticion(c, cs, j + 1) == pt);
                        assert(crate::rango_repeticion::pos_tras_repeticion(c, ap, j + 1) == pt);
                        if c == '{' {
                            lema_escanea_rango_cota(a, j + 1, 0);
                        }
                        assert(j + 1 <= pt + 1 <= a.len());
                        let tokens2 = tokens.update(
                            tokens.len() - 1,
                            TokenEspec {
                                valor: tokens.last().valor,
                                repeticion: rep,
                                repeticion_modificable: false,
                            },
                        );
                        lema_compila_prefijo(a, cola, pt + 1, tokens2, exprs);
                    }
                },
                Ok(None) => {
                    assert(crate::rango_repeticion::resultado_repeticion(c, cs, j + 1) == Ok::<
                        Option<RepeticionRegexToken>,
                        crate::error_regex::ErrorRegex,
                    >(None));
                    assert(crate::rango_repeticion::resultado_repeticion(c, ap, j + 1) == Ok::<
                        Option<RepeticionRegexToken>,
                        crate::error_regex::ErrorRegex,
                    >(None));
                    lema_compila_prefijo(a, cola, j + 1, tokens.push(espec_literal('{')), exprs);
                },
            }
        } else if c == '|' {
            lema_compila_prefijo(a, cola, j + 1, Seq::empty(), exprs.push(tokens));
        } else if c == '.' {
            lema_compila_prefijo(a, cola, j + 1, tokens.push(crate::regex::espec_comodin()), exprs);
        } else if c == '\\' {
            if j + 1 >= a.len() {
                assert(compila_desde(a, j, tokens, exprs) is Err);
            } else {
                assert(cs[j + 1] == a[j + 1] && ap[j + 1] == a[j + 1]);
                lema_compila_prefijo(a, cola, j + 2, tokens.push(espec_literal(a[j + 1])), exprs);
            }
        } else if c == '^' {
            if j == 0 || a[j - 1] == '|' {
                lema_compila_prefijo(
                    a,
                    cola,
                    j + 1,
                    tokens.push(crate::regex::espec_anclaje_inicio()),
                    exprs,
                );
            } else if a[j - 1] == '^' {
                lema_compila_prefijo(a, cola, j + 1, tokens, exprs);
            } else {
                assert(compila_desde(a, j, tokens, exprs) is Err);
            }
        } else if c == '$' {
            lema_compila_prefijo(
                a,
                cola,
                j + 1,
                tokens.push(crate::regex::espec_anclaje_final()),
                exprs,
            );
        } else if c == '[' {
            let q = j + 1;
            match escanea_bracket(a, q, q, false) {
                None => {
                    assert(compila_desde(a, j, tokens, exprs) is Err);
                },
                Some(p) => {
                    crate::expresion_bracket::lema_escanea_bracket_cota(a, q, q, false);
                    lema_escanea_bracket_prefijo(a, ap, q, q, false);
                    lema_escanea_bracket_prefijo(a, cs, q, q, false);
                    assert(cs.subrange(q, p) =~= a.subrange(q, p));
                    assert(ap.subrange(q, p) =~= a.subrange(q, p));
                    assert(resultado_bracket(cs, q) == resultado_bracket(a, q));
                    assert(resultado_bracket(ap, q) == resultado_bracket(a, q));
                    assert(crate::expresion_bracket::pos_tras_bracket(cs, q) == p);
                    assert(crate::expresion_bracket::pos_tras_bracket(ap, q) == p);
                    match resultado_bracket(a, q) {
                        Err(_) => {
                            assert(compila_desde(a, j, tokens, exprs) is Err);
                        },
                        Ok(par) => {
                            lema_compila_prefijo(
                                a,
                                cola,
                                p + 1,
                                tokens.push(espec_bracket(par)),
                                exprs,
                            );
                        },
                    }
                },
            }
        } else {
            lema_compila_prefijo(a, cola, j + 1, tokens.push(espec_literal(c)), exprs);
        }
    }
}

/// Compiling the part of a pattern that follows a `|` sees only that part:
/// the run is the same as compiling it alone from the same state.
proof fn lema_compila_sufijo(
    cs: Seq<char>,
    b: Seq<char>,
    off: int,
    j2: int,
    tokens: Seq<TokenEspec>,
    exprs: Seq<Seq<TokenEspec>>,
)
    requires
        1 <= off,
        cs.len() == off + b.len(),
        forall|k: int| 0 <= k < b.len() ==> cs[off + k] == b[k],
        cs[off - 1] == '|',
        0 <= j2 <= b.len(),
    ensures
        compila_desde(cs, off + j2, tokens, exprs) == compila_desde(b, j2, tokens, exprs),
    decreases b.len() - j2,
{
    if j2 == b.len() {
    } else {
        let c = b[j2];
        assert(cs[off + j2] == c);
        if c == '?' || c == '*' || c == '+' || c == '{' {
            if c == '{' {
                lema_escanea_rango_despl(cs, b, off, j2 + 1, 0);
                match escanea_rango(b, j2 + 1, 0) {
                    EscaneoRango::Cierre(f) => {
                        lema_escanea_rango_cota(b, j2 + 1, 0);
                        assert(cs.subrange(off + j2 + 1, off + f) =~= b.subrange(j2 + 1, f));
                    },
                    _ => {},
                }
            }
            let rb = crate::rango_repeticion::resultado_repeticion(c, b, j2 + 1);
            assert(crate::rango_repeticion::resultado_repeticion(c, cs, off + j2 + 1) == rb);
            match rb {
                Err(_) => {},
                Ok(Some(rep)) => {
                    if tokens.len() == 0 || !tokens.last().repeticion_modificable {
                    } else {
                        let pt = crate::rango_repeticion::pos_tras_repeticion(c, b, j2 + 1);
                        assert(crate::rango_repeticion::pos_tras_repeticion(c, cs, off + j2 + 1)
                            == off + pt) by {
                            if c == '{' {
                                match escanea_rango(b, j2 + 1, 0) {
                                    EscaneoRango::Cierre(f) => {},
                                    _ => {},
                                }
                            }
                        }
                        if c == '{' {
                            lema_escanea_rango_cota(b, j2 + 1, 0);
                        }
                        assert(0 <= pt + 1 <= b.len());
                        let tokens2 = tokens.update(
                            tokens.len() - 1,
                            TokenEspec {
                                valor: tokens.last().valor,
                                repeticion: rep,
                                repeticion_modificable: false,
                            },
                        );
                        lema_compila_sufijo(cs, b, off, pt + 1, tokens2, exprs);
                    }
                },
                Ok(None) => {
                    lema_compila_sufijo(
                        cs,
                        b,
                        off,
                        j2 + 1,
                        tokens.push(espec_literal('{')),
                        exprs,
                    );
                },
            }
        } else if c == '|' {
            lema_compila_sufijo(cs, b, off, j2 + 1, Seq::empty(), exprs.push(tokens));
        } else if c == '.' {
            lema_compila_sufijo(
                cs,
                b,
                off,
                j2 + 1,
                tokens.push(crate::regex::espec_comodin()),
                exprs,
            );
        } else if c == '\\' {
            if j2 + 1 >= b.len() {
            } else {
                assert(cs[off + j2 + 1] == b[j2 + 1]);
                lema_compila_sufijo(
                    cs,
                    b,
                    off,
                    j2 + 2,
                    tokens.push(espec_literal(b[j2 + 1])),
                    exprs,
                );
            }
        } else if c == '^' {
            if j2 == 0 {
                assert(off + j2 != 0 && cs[off + j2 - 1] == '|');
                lema_compila_sufijo(
                    cs,
                    b,
                    off,
                    j2 + 1,
                    tokens.push(crate::regex::espec_anclaje_inicio()),
                    exprs,
                );
            } else {
                assert(cs[off + j2 - 1] == b[j2 - 1]);
                if b[j2 - 1] == '|' {
                    lema_compila_sufijo(
                        cs,
                        b,
                        off,
                        j2 + 1,
                        tokens.push(crate::regex::espec_anclaje_inicio()),
                        exprs,
                    );
                } else if b[j2 - 1] == '^' {
                    lema_compila_sufijo(cs, b, off, j2 + 1, tokens, exprs);
                }
            }
        } else if c == '$' {
            lema_compila_sufijo(
                cs,
                b,
                off,
                j2 + 1,
                tokens.push(crate::regex::espec_anclaje_final()),
                exprs,
            );
        } else if c == '[' {
            let q2 = j2 + 1;
            lema_escanea_bracket_despl(cs, b, off, q2, q2, false);
            match escanea_bracket(b, q2, q2, false) {
                None => {},
                Some(p) => {
                    crate::expresion_bracket::lema_escanea_bracket_cota(b, q2, q2, false);
                    assert(cs.subrange(off + q2, off + p) =~= b.subrange(q2, p));
                    assert(resultado_bracket(cs, off + q2) == resultado_bracket(b, q2));
                    match resultado_bracket(b, q2) {
                        Err(_) => {},
                        Ok(par) => {
                            lema_compila_sufijo(
                                cs,
                                b,
                                off,
                                p + 1,
                                tokens.push(espec_bracket(par)),
                                exprs,
                            );
                        },
                    }
                },
            }
        } else {
            lema_compila_sufijo(cs, b, off, j2 + 1, tokens.push(espec_literal(c)), exprs);
        }
    }
}

/// The alternation law on patterns: when both sides compile on their own —
/// and the left side still compiles with the bar right behind it — the
/// joined pattern compiles to the two lists of alternatives in sequence.
pub proof fn ley_alternancia_compila(a: Seq<char>, b: Seq<char>)
    requires
        compila(a) is Ok,
        compila(a + seq!['|']) is Ok,
        compila(b) is Ok,
    ensures
        compila(a + seq!['|'] + b) == Ok::<_, crate::regex::ErrorCompilacion>(
            compila(a)->Ok_0 + compila(b)->Ok_0,
        ),
{
    let cola = seq!['|'] + b;
    let cs = a + cola;
    assert(cs =~= a + seq!['|'] + b);
    lema_compila_prefijo(a, cola, 0, Seq::empty(), Seq::empty());
    let ma = compila(a)->Ok_0;
    let off = a.len() as int + 1;
    assert(forall|k: int| 0 <= k < b.len() ==> cs[off + k] == b[k]);
    assert(cs[off - 1] == '|');
    lema_compila_sufijo(cs, b, off, 0, Seq::empty(), ma);
    lema_compila_acumulador(b, 0, Seq::empty(), ma);
}

/// The alternation law in full: a compiled `A|B` matches a candidate
/// exactly when a compiled `A` or a compiled `B` does.
pub proof fn ley_alternancia_patrones(
    a: Seq<char>,
    b: Seq<char>,
    es: Seq<Expresion>,
    esa: Seq<Expresion>,
    esb: Seq<Expresion>,
    s: Seq<char>,
)
    requires
        compila(a) is Ok,
        compila(a + seq!['|']) is Ok,
        compila(b) is Ok,
        modelo_expresiones(es) == compila(a + seq!['|'] + b)->Ok_0,
        modelo_expresiones(esa) == compila(a)->Ok_0,
        modelo_expresiones(esb) == compila(b)->Ok_0,
    ensures
        regex_matchea(es, s) == (regex_matchea(esa, s) || regex_matchea(esb, s)),
{
    ley_alternancia_compila(a, b);
    assert(modelo_expresiones(esa).len() == esa.len());
    assert(modelo_expresiones(esb).len() == esb.len());
    assert(modelo_expresiones(esa + esb) =~= modelo_expresiones(esa) + modelo_expresiones(esb))
        by {
        assert(forall|i: int|
            0 <= i < esa.len() + esb.len() ==> #[trigger] modelo_expresiones(esa + esb)[i]
                == modelo_tokens((esa + esb)[i].tokens@));
        assert(forall|i: int|
            0 <= i < esa.len() ==> (esa + esb)[i] == esa[i] && #[trigger] modelo_expresiones(
                esa,
            )[i] == modelo_tokens(esa[i].tokens@));
        assert(forall|i: int|
            esa.len() <= i < esa.len() + esb.len() ==> (esa + esb)[i] == esb[i - esa.len()]
                && #[trigger] modelo_expresiones(esb)[i - esa.len()] == modelo_tokens(
                esb[i - esa.len()].tokens@,
            ));
    }
    ley_compilacion_determinista(es, esa + esb, s);
    ley_alternancia(esa, esb, s);
}

/// Alternation reads as disjunction: a list of alternatives made of two
/// lists in sequence matches a candidate exactly when one of the two does.
pub proof fn ley_alternancia(esa: Seq<Expresion>, esb: Seq<Expresion>, s: Seq<char>)
    ensures
        regex_matchea(esa + esb, s) == (regex_matchea(esa, s) || regex_matchea(esb, s)),
{
    let juntos = esa + esb;
    if regex_matchea(esa, s) {
        let k = choose|k: int| 0 <= k < esa.len() && expresion_matchea(esa[k].tokens@, s);
        assert(juntos[k] == esa[k]);
        assert(regex_matchea(juntos, s));
    }
    if regex_matchea(esb, s) {
        let k = choose|k: int| 0 <= k < esb.len() && expresion_matchea(esb[k].tokens@, s);
        assert(juntos[esa.len() + k] == esb[k]);
        assert(regex_matchea(juntos, s));
    }
    if regex_matchea(juntos, s) {
        let k = choose|k: int| 0 <= k < juntos.len() && expresion_matchea(juntos[k].tokens@, s);
        if k < esa.len() {
            assert(juntos[k] == esa[k]);
            assert(regex_matchea(esa, s));
        } else {
            assert(juntos[k] == esb[k - esa.len()]);
            assert(regex_matchea(esb, s));
        }
    }
}

} // verus!
