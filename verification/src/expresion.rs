//! One alternative of a compiled pattern, and the matcher that runs it.
//!
//! The matcher implements, step for step, the backtracking machine specified
//! in [`crate::maquina`]: every loop iteration of `matchea_desde_inicio` is
//! one machine step, and the function is proved to return exactly the
//! verdict of the bounded run of that machine.

use vstd::prelude::*;
use crate::cadena::a_caracteres;
use crate::iterador_vec::{IteradorVecHaciaAtras, lema_retrocede_n_paso, retrocede, retrocede_n};
use crate::maquina::{
    Maquina, PasoMaquina, combustible_total, corre, expresion_matchea, extras, hay_regreso,
    lema_marcos_paso, lema_racha_cota, lema_suma_concat, lema_suma_divide,
    lema_suma_marcos, lema_suma_pila_mono, lema_suma_push, lema_tope_regreso, maquina_inicial,
    marcos_codiciosos, matchea_desde, paso, racha, suma_pila, tope_regreso, tras_fases,
    tras_regreso,
};
use crate::regex_token::RegexToken;
use crate::valor_regex_token::{ValorRegexToken, valor_acepta, valor_acepta_caracter};

verus! {

/// One alternative: an ordered list of tokens.
#[derive(Debug)]
pub struct Expresion {
    pub tokens: Vec<RegexToken>,
}

impl Expresion {
    /// Builds an alternative from its tokens.
    pub fn new(tokens: Vec<RegexToken>) -> (r: Self)
        ensures
            r.tokens == tokens,
    {
        Self { tokens }
    }

    /// Matches one occurrence of the token's value at character position
    /// `i`, reporting how many characters it consumed.
    fn matchea_un(token: &RegexToken, caracteres: &Vec<char>, i: usize) -> (r: usize)
        ensures
            r == (if i < caracteres@.len() && valor_acepta(token.valor, caracteres@[i as int]) {
                1int
            } else {
                0int
            }),
    {
        if i < caracteres.len() && valor_acepta_caracter(&token.valor, caracteres[i]) {
            1
        } else {
            0
        }
    }

    /// Gives back frames from the stack: steps the token cursor back once,
    /// pops frames until one that may be given back, stepping the cursor
    /// back once more for every unyielding frame popped, and reports the
    /// total number of characters freed — or nothing when no frame could be
    /// given back.
    fn backtrack(
        evaluated: &mut Vec<(usize, bool)>,
        tokens: &mut IteradorVecHaciaAtras<RegexToken>,
    ) -> (r: Option<usize>)
        requires
            suma_pila(old(evaluated)@, 0) <= usize::MAX,
        ensures
            final(tokens).elementos() == old(tokens).elementos(),
            hay_regreso(old(evaluated)@) ==> ({
                let k = tope_regreso(old(evaluated)@);
                &&& r == Some(suma_pila(old(evaluated)@, k) as usize)
                &&& final(evaluated)@ == old(evaluated)@.subrange(0, k)
                &&& final(tokens).posicion() == retrocede_n(
                    retrocede(old(tokens).posicion()),
                    (old(evaluated)@.len() - 1 - k) as nat,
                )
            }),
            !hay_regreso(old(evaluated)@) ==> ({
                &&& r is None
                &&& final(evaluated)@.len() == 0
                &&& final(tokens).posicion() == retrocede_n(
                    retrocede(old(tokens).posicion()),
                    old(evaluated)@.len() as nat,
                )
            }),
    {
        let mut back_size: usize = 0;
        let _ = tokens.prev();
        loop
            invariant
                tokens.elementos() == old(tokens).elementos(),
                evaluated@.len() <= old(evaluated)@.len(),
                evaluated@ == old(evaluated)@.subrange(0, evaluated@.len() as int),
                forall|j: int|
                    evaluated@.len() <= j < old(evaluated)@.len() ==> !old(evaluated)@[j].1,
                suma_pila(old(evaluated)@, 0) <= usize::MAX,
                back_size == suma_pila(old(evaluated)@, evaluated@.len() as int),
                tokens.posicion() == retrocede_n(
                    retrocede(old(tokens).posicion()),
                    (old(evaluated)@.len() - evaluated@.len()) as nat,
                ),
            decreases evaluated@.len(),
        {
            let ghost m = evaluated@.len() as int;
            match evaluated.pop() {
                None => {
                    proof {
                        assert(forall|j: int|
                            0 <= j < old(evaluated)@.len() ==> !old(evaluated)@[j].1);
                    }
                    return None;
                },
                Some(e) => {
                    proof {
                        assert(evaluated@ =~= old(evaluated)@.subrange(0, m - 1));
                        assert(e == old(evaluated)@[m - 1]);
                        lema_suma_pila_mono(old(evaluated)@, m - 1, m);
                        lema_suma_pila_mono(old(evaluated)@, 0, m - 1);
                    }
                    back_size = back_size + e.0;
                    if e.1 {
                        proof {
                            lema_tope_regreso(old(evaluated)@);
                            assert(old(evaluated)@[m - 1].1);
                            assert(hay_regreso(old(evaluated)@));
                            assert(tope_regreso(old(evaluated)@) == m - 1);
                        }
                        return Some(back_size);
                    } else {
                        let _ = tokens.prev();
                        proof {
                            lema_retrocede_n_paso(
                                retrocede(old(tokens).posicion()),
                                (old(evaluated)@.len() - m) as nat,
                            );
                        }
                    }
                },
            }
        }
    }

    /// The mandatory phase of one token: attempts `n` consecutive
    /// occurrences from the current position.  On success the consumed span
    /// is recorded as one unyielding frame.  On failure the matcher gives
    /// back earlier greedy characters when it can, reporting that the token
    /// walk must continue from the rewound cursor; with nothing to give
    /// back, the attempt from this start is lost.
    fn matchear_n_veces(
        n: usize,
        token: &RegexToken,
        caracteres: &Vec<char>,
        indice: &mut usize,
        tokens: &mut IteradorVecHaciaAtras<RegexToken>,
        pila: &mut Vec<(usize, bool)>,
    ) -> (r: (usize, bool))
        requires
            *old(indice) <= caracteres@.len(),
            suma_pila(old(pila)@, 0) <= *old(indice),
        ensures
            final(tokens).elementos() == old(tokens).elementos(),
            ({
                let r0 = racha(token.valor, caracteres@, *old(indice) as int);
                if r0 >= n {
                    &&& r == (n, false)
                    &&& *final(indice) == *old(indice) + n
                    &&& final(pila)@ == (if n > 0 {
                        old(pila)@.push((n, false))
                    } else {
                        old(pila)@
                    })
                    &&& *final(tokens) == *old(tokens)
                } else if hay_regreso(old(pila)@) {
                    let k = tope_regreso(old(pila)@);
                    &&& r == (0usize, true)
                    &&& *final(indice) == *old(indice) - suma_pila(old(pila)@, k)
                    &&& final(pila)@ == old(pila)@.subrange(0, k)
                    &&& final(tokens).posicion() == retrocede_n(
                        retrocede(old(tokens).posicion()),
                        (old(pila)@.len() - 1 - k) as nat,
                    )
                } else {
                    &&& r == (0usize, false)
                    &&& final(pila)@.len() == 0
                }
            }),
    {
        let ghost v = token.valor;
        let ghost i0 = *old(indice) as int;
        let _largo_total = caracteres.len();
        let mut tamano_match: usize = 0;
        let mut j: usize = 0;
        while j < n
            invariant
                caracteres@.len() <= usize::MAX,
                *indice == *old(indice) + j,
                tamano_match == j,
                j <= n,
                *indice <= caracteres@.len(),
                racha(v, caracteres@, i0) == j + racha(v, caracteres@, i0 + j),
                v == token.valor,
                i0 == *old(indice) as int,
                pila@ == old(pila)@,
                *tokens == *old(tokens),
                suma_pila(old(pila)@, 0) <= *old(indice),
            decreases n - j,
        {
            let s = Self::matchea_un(token, caracteres, *indice);
            if s == 0 {
                proof {
                    assert(racha(v, caracteres@, i0 + j) == 0);
                    assert(racha(v, caracteres@, i0) == j);
                    lema_tope_regreso(pila@);
                    if hay_regreso(pila@) {
                        lema_suma_pila_mono(pila@, 0, tope_regreso(pila@));
                    }
                }
                match Self::backtrack(pila, tokens) {
                    Some(size) => {
                        *indice = *indice - (size + tamano_match);
                        return (0, true);
                    },
                    None => {
                        return (0, false);
                    },
                }
            } else {
                proof {
                    lema_racha_cota(v, caracteres@, i0 + j);
                }
                tamano_match = tamano_match + 1;
                *indice = *indice + 1;
                j = j + 1;
            }
        }
        if tamano_match != 0 {
            pila.push((tamano_match, false));
        }
        proof {
            lema_racha_cota(v, caracteres@, i0 + n);
        }
        (tamano_match, false)
    }

    /// The greedy phase of a token with a finite upper bound: consumes
    /// further occurrences, each recorded as a frame that may be given back,
    /// until the value stops matching or the bound is reached.
    fn matchear_entre_n_y_m_veces(
        m: usize,
        token: &RegexToken,
        caracteres: &Vec<char>,
        indice: &mut usize,
        pila: &mut Vec<(usize, bool)>,
    )
        requires
            *old(indice) <= caracteres@.len(),
            token.repeticion.max == Some(m),
        ensures
            ({
                let base: int = match token.repeticion.min {
                    Some(n) => n as int,
                    None => 0,
                };
                let e = extras(*token, caracteres@, *old(indice) as int, base);
                &&& *final(indice) == *old(indice) + e
                &&& final(pila)@ == old(pila)@ + marcos_codiciosos(e)
            }),
    {
        let ghost v = token.valor;
        let ghost i0 = *old(indice) as int;
        let _largo_total = caracteres.len();
        let mut tamano = Self::matchea_un(token, caracteres, *indice);
        let mut valores_evaluados: usize = 0;
        match token.min_repeticiones() {
            Some(n) => {
                valores_evaluados = n;
            },
            None => {},
        }
        let ghost base = valores_evaluados as int;
        while tamano != 0 && valores_evaluados < m
            invariant
                caracteres@.len() <= usize::MAX,
                base <= valores_evaluados,
                *indice == *old(indice) + (valores_evaluados - base),
                *indice <= caracteres@.len(),
                valores_evaluados <= m || valores_evaluados == base,
                racha(v, caracteres@, i0) == (valores_evaluados - base) + racha(
                    v,
                    caracteres@,
                    *indice as int,
                ),
                tamano == (if *indice < caracteres@.len() && valor_acepta(
                    v,
                    caracteres@[*indice as int],
                ) {
                    1int
                } else {
                    0int
                }),
                v == token.valor,
                i0 == *old(indice) as int,
                base == (match token.repeticion.min {
                    Some(n) => n as int,
                    None => 0int,
                }),
                pila@ == old(pila)@ + marcos_codiciosos((valores_evaluados - base) as nat),
            decreases m - valores_evaluados,
        {
            proof {
                lema_racha_cota(v, caracteres@, *indice as int);
                lema_marcos_paso((valores_evaluados - base) as nat);
            }
            *indice = *indice + tamano;
            pila.push((tamano, true));
            proof {
                assert(pila@ =~= old(pila)@ + marcos_codiciosos(
                    (valores_evaluados + 1 - base) as nat,
                ));
            }
            tamano = Self::matchea_un(token, caracteres, *indice);
            valores_evaluados = valores_evaluados + 1;
        }
        proof {
            if tamano == 0 {
                assert(racha(v, caracteres@, *indice as int) == 0);
            }
            assert(pila@ =~= old(pila)@ + marcos_codiciosos(
                extras(*token, caracteres@, i0, base),
            ));
        }
    }

    /// The greedy phase of a token without an upper bound: consumes
    /// occurrences, each recorded as a frame that may be given back, until
    /// the value stops matching.
    fn matchear_hasta_el_final(
        token: &RegexToken,
        caracteres: &Vec<char>,
        indice: &mut usize,
        pila: &mut Vec<(usize, bool)>,
    )
        requires
            *old(indice) <= caracteres@.len(),
            token.repeticion.max is None,
        ensures
            ({
                let e = racha(token.valor, caracteres@, *old(indice) as int);
                &&& *final(indice) == *old(indice) + e
                &&& final(pila)@ == old(pila)@ + marcos_codiciosos(e)
            }),
    {
        let ghost v = token.valor;
        let ghost i0 = *old(indice) as int;
        let _largo_total = caracteres.len();
        let mut tamano = Self::matchea_un(token, caracteres, *indice);
        let ghost mut consumidos: int = 0;
        while tamano != 0
            invariant
                caracteres@.len() <= usize::MAX,
                0 <= consumidos,
                *indice == *old(indice) + consumidos,
                *indice <= caracteres@.len(),
                racha(v, caracteres@, i0) == consumidos + racha(v, caracteres@, *indice as int),
                tamano == (if *indice < caracteres@.len() && valor_acepta(
                    v,
                    caracteres@[*indice as int],
                ) {
                    1int
                } else {
                    0int
                }),
                v == token.valor,
                i0 == *old(indice) as int,
                pila@ == old(pila)@ + marcos_codiciosos(consumidos as nat),
            decreases caracteres@.len() - *indice,
        {
            proof {
                lema_racha_cota(v, caracteres@, *indice as int);
                lema_marcos_paso(consumidos as nat);
            }
            *indice = *indice + tamano;
            pila.push((tamano, true));
            proof {
                consumidos = consumidos + 1;
                assert(pila@ =~= old(pila)@ + marcos_codiciosos(consumidos as nat));
            }
            tamano = Self::matchea_un(token, caracteres, *indice);
        }
        proof {
            assert(racha(v, caracteres@, *indice as int) == 0);
        }
    }

    /// Attempts a match of the whole alternative starting exactly at
    /// character position `inicio`.  Each loop iteration performs one step
    /// of the backtracking machine; the result is the verdict of the
    /// machine's bounded run.
    fn matchea_desde_inicio(&self, caracteres: &Vec<char>, inicio: usize) -> (r: bool)
        requires
            inicio <= caracteres@.len(),
        ensures
            r == matchea_desde(self.tokens@, caracteres@, inicio as int),
    {
        let _largo_total = caracteres.len();
        let mut indice: usize = inicio;
        let mut iter_tokens = IteradorVecHaciaAtras::new(&self.tokens);
        let mut pila: Vec<(usize, bool)> = Vec::new();
        let mut combustible: usize = usize::MAX;
        proof {
            assert(pila@ =~= Seq::<(usize, bool)>::empty());
            assert(Maquina {
                cursor: iter_tokens.posicion(),
                indice: indice as int,
                pila: pila@,
            } == maquina_inicial(inicio as int));
        }
        loop
            invariant
                iter_tokens.elementos() == self.tokens@,
                caracteres@.len() <= usize::MAX,
                inicio <= indice <= caracteres@.len(),
                suma_pila(pila@, 0) == indice - inicio,
                corre(
                    self.tokens@,
                    caracteres@,
                    Maquina { cursor: iter_tokens.posicion(), indice: indice as int, pila: pila@ },
                    combustible as nat,
                ) == corre(
                    self.tokens@,
                    caracteres@,
                    maquina_inicial(inicio as int),
                    combustible_total(),
                ),
            decreases combustible,
        {
            let ghost m_antes = Maquina {
                cursor: iter_tokens.posicion(),
                indice: indice as int,
                pila: pila@,
            };
            let ghost comb_antes = combustible as nat;
            let proximo = iter_tokens.next();
            match proximo {
                None => {
                    proof {
                        assert(paso(self.tokens@, caracteres@, m_antes) == PasoMaquina::Termina(
                            true,
                        ));
                        assert(corre(self.tokens@, caracteres@, m_antes, comb_antes) == Some(
                            true,
                        ));
                    }
                    return true;
                },
                Some(token) => {
                    proof {
                        assert(m_antes.cursor + 1 < self.tokens@.len());
                        assert(*token == self.tokens@[m_antes.cursor + 1]);
                    }
                    if matches!(token.valor, ValorRegexToken::AnclajeFinal) {
                        proof {
                            assert(paso(self.tokens@, caracteres@, m_antes)
                                == PasoMaquina::Termina(m_antes.indice == caracteres@.len()));
                        }
                        return indice == caracteres.len();
                    }
                    let mut continuar = false;
                    match token.min_repeticiones() {
                        Some(n) => {
                            let resultado = Self::matchear_n_veces(
                                n,
                                token,
                                caracteres,
                                &mut indice,
                                &mut iter_tokens,
                                &mut pila,
                            );
                            if resultado.1 {
                                continuar = true;
                            } else if resultado.0 == 0 && n != 0 {
                                proof {
                                    assert(racha(token.valor, caracteres@, m_antes.indice) < n);
                                    assert(!hay_regreso(m_antes.pila));
                                    assert(paso(self.tokens@, caracteres@, m_antes)
                                        == PasoMaquina::Termina(false));
                                }
                                return false;
                            }
                        },
                        None => {},
                    }
                    if !continuar {
                        proof {
                            lema_racha_cota(token.valor, caracteres@, m_antes.indice);
                        }
                        match token.max_repeticiones() {
                            Some(mx) => {
                                Self::matchear_entre_n_y_m_veces(
                                    mx,
                                    token,
                                    caracteres,
                                    &mut indice,
                                    &mut pila,
                                );
                            },
                            None => {
                                Self::matchear_hasta_el_final(
                                    token,
                                    caracteres,
                                    &mut indice,
                                    &mut pila,
                                );
                            },
                        }
                    }
                    proof {
                        let t = self.tokens@[m_antes.cursor + 1];
                        let c1 = m_antes.cursor + 1;
                        let m_despues = Maquina {
                            cursor: iter_tokens.posicion(),
                            indice: indice as int,
                            pila: pila@,
                        };
                        if continuar {
                            let k = tope_regreso(m_antes.pila);
                            lema_tope_regreso(m_antes.pila);
                            lema_suma_divide(m_antes.pila, k);
                            lema_suma_pila_mono(m_antes.pila, 0, k);
                            let objetivo = Maquina {
                                cursor: tras_regreso(c1, m_antes.pila).cursor,
                                indice: m_antes.indice - tras_regreso(c1, m_antes.pila).indice,
                                pila: tras_regreso(c1, m_antes.pila).pila,
                            };
                            assert(m_despues.pila =~= objetivo.pila);
                            assert(m_despues == objetivo);
                            assert(paso(self.tokens@, caracteres@, m_antes) == PasoMaquina::Sigue(
                                m_despues,
                            ));
                        } else {
                            let base: int = match t.repeticion.min {
                                Some(n) => n as int,
                                None => 0,
                            };
                            let i1 = m_antes.indice + base;
                            let pila1 = match t.repeticion.min {
                                Some(n) => if n > 0 {
                                    m_antes.pila.push((n, false))
                                } else {
                                    m_antes.pila
                                },
                                None => m_antes.pila,
                            };
                            let e = extras(t, caracteres@, i1, base);
                            lema_racha_cota(t.valor, caracteres@, i1);
                            let objetivo = tras_fases(t, caracteres@, c1, i1, base, pila1);
                            assert(m_despues.pila =~= objetivo.pila);
                            assert(m_despues == objetivo);
                            assert(paso(self.tokens@, caracteres@, m_antes) == PasoMaquina::Sigue(
                                m_despues,
                            ));
                            lema_suma_concat(pila1, marcos_codiciosos(e), 0);
                            lema_suma_marcos(e);
                            if t.repeticion.min matches Some(n) && n > 0 {
                                lema_suma_push(m_antes.pila, (t.repeticion.min->0, false));
                            }
                        }
                        assert(suma_pila(m_despues.pila, 0) == m_despues.indice - inicio);
                    }
                    if combustible == 0 {
                        proof {
                            assert(corre(self.tokens@, caracteres@, m_antes, 0nat) is None);
                        }
                        return false;
                    }
                    combustible = combustible - 1;
                },
            }
        }
    }

    /// Attempts a match from every character position of the candidate; an
    /// empty candidate offers no position at all.
    fn matchea_desde_cualquier_lugar(&self, caracteres: &Vec<char>) -> (r: bool)
        ensures
            r == exists|i: int|
                0 <= i < caracteres@.len() && matchea_desde(self.tokens@, caracteres@, i),
    {
        let mut i: usize = 0;
        while i < caracteres.len()
            invariant
                i <= caracteres@.len(),
                forall|j: int| 0 <= j < i ==> !matchea_desde(self.tokens@, caracteres@, j),
            decreases caracteres@.len() - i,
        {
            if self.matchea_desde_inicio(caracteres, i) {
                return true;
            }
            i = i + 1;
        }
        false
    }

    /// Matches the alternative against a candidate string: from the start
    /// alone when the first token anchors it there, from every character
    /// position otherwise.  An empty alternative matches everything.
    pub fn matchea(&self, valor: &str) -> (r: bool)
        ensures
            r == expresion_matchea(self.tokens@, valor@),
    {
        let caracteres = a_caracteres(valor);
        if self.tokens.len() == 0 {
            true
        } else {
            let primero = &self.tokens[0];
            if matches!(primero.valor, ValorRegexToken::AnclajeInicio) {
                self.matchea_desde_inicio(&caracteres, 0)
            } else {
                self.matchea_desde_cualquier_lugar(&caracteres)
            }
        }
    }
}

} // verus!
