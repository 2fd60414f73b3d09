//! The backtracking machine that defines the matching semantics.
//!
//! Matching one alternative against a candidate string is specified as a
//! small-step machine.  Its state is a cursor into the token list, a
//! character position in the candidate, and a stack of frames recording how
//! many characters each phase of a token consumed and whether they may be
//! given back.  One step of the machine processes one token: a mandatory
//! phase that must match the token's lower bound of occurrences (giving back
//! greedy characters of earlier tokens on failure), then a greedy phase that
//! consumes further occurrences up to the upper bound.
//!
//! The machine is deterministic; `corre` runs it for a bounded number of
//! steps.  The matcher is proved to return exactly the verdict of the run
//! with allowance `combustible_total()`, so every law of the engine is a
//! statement about these functions.

use vstd::prelude::*;
use crate::iterador_vec::{retrocede, retrocede_n};
use crate::regex_token::RegexToken;
use crate::valor_regex_token::{ValorRegexToken, valor_acepta};

verus! {

/// A machine state: the cursor over the token list (`-1` before the first
/// token), the current character position in the candidate, and the stack of
/// `(characters consumed, may be given back)` frames.
pub struct Maquina {
    pub cursor: int,
    pub indice: int,
    pub pila: Seq<(usize, bool)>,
}

/// The outcome of one machine step: a successor state, or a verdict.
pub enum PasoMaquina {
    Sigue(Maquina),
    Termina(bool),
}

/// Length of the greedy run: how many consecutive characters from `i` the
/// token value accepts.
pub open spec fn racha(v: ValorRegexToken, s: Seq<char>, i: int) -> nat
    decreases s.len() - i,
{
    if 0 <= i && i < s.len() && valor_acepta(v, s[i]) {
        1 + racha(v, s, i + 1)
    } else {
        0
    }
}

/// The greedy run never reaches past the end of the candidate.
pub proof fn lema_racha_cota(v: ValorRegexToken, s: Seq<char>, i: int)
    requires
        0 <= i <= s.len(),
    ensures
        racha(v, s, i) <= s.len() - i,
    decreases s.len() - i,
{
    if i < s.len() && valor_acepta(v, s[i]) {
        lema_racha_cota(v, s, i + 1);
    }
}

/// Some frame of the stack may be given back.
pub open spec fn hay_regreso(pila: Seq<(usize, bool)>) -> bool {
    exists|k: int| 0 <= k < pila.len() && pila[k].1
}

/// Index of the topmost frame that may be given back, `-1` when there is
/// none.
pub open spec fn tope_regreso(pila: Seq<(usize, bool)>) -> int
    decreases pila.len(),
{
    if pila.len() == 0 {
        -1
    } else if pila[pila.len() - 1].1 {
        pila.len() - 1
    } else {
        tope_regreso(pila.drop_last())
    }
}

/// `tope_regreso` names the largest index whose frame may be given back.
pub proof fn lema_tope_regreso(pila: Seq<(usize, bool)>)
    ensures
        hay_regreso(pila) ==> {
            let k = tope_regreso(pila);
            &&& 0 <= k < pila.len()
            &&& pila[k].1
            &&& forall|j: int| k < j < pila.len() ==> !pila[j].1
        },
        !hay_regreso(pila) ==> tope_regreso(pila) == -1,
    decreases pila.len(),
{
    if pila.len() > 0 {
        lema_tope_regreso(pila.drop_last());
        let resto = pila.drop_last();
        assert(forall|j: int| 0 <= j < resto.len() ==> resto[j] == pila[j]);
        if !pila[pila.len() - 1].1 {
            if hay_regreso(pila) {
                let k = choose|k: int| 0 <= k < pila.len() && pila[k].1;
                assert(k < pila.len() - 1 && resto[k] == pila[k]);
                assert(hay_regreso(resto));
                let t = tope_regreso(resto);
                assert(tope_regreso(pila) == t);
                assert(pila[t].1);
                assert(forall|j: int| t < j < pila.len() ==> !pila[j].1) by {
                    assert(forall|j: int| t < j < resto.len() ==> !resto[j].1);
                }
            } else {
                assert(forall|j: int| 0 <= j < resto.len() && resto[j].1 ==> pila[j].1);
                assert(!hay_regreso(resto));
            }
        }
    }
}

/// Sum of the sizes of the frames from index `desde` to the top.
pub open spec fn suma_pila(pila: Seq<(usize, bool)>, desde: int) -> int
    decreases pila.len() - desde,
{
    if 0 <= desde && desde < pila.len() {
        pila[desde].0 + suma_pila(pila, desde + 1)
    } else {
        0
    }
}

/// Every partial sum of the stack is non-negative.
pub proof fn lema_suma_pila_no_negativa(pila: Seq<(usize, bool)>, desde: int)
    ensures
        suma_pila(pila, desde) >= 0,
    decreases pila.len() - desde,
{
    if 0 <= desde && desde < pila.len() {
        lema_suma_pila_no_negativa(pila, desde + 1);
    }
}

/// Partial sums of the stack shrink as the starting index grows.
pub proof fn lema_suma_pila_mono(pila: Seq<(usize, bool)>, a: int, b: int)
    requires
        0 <= a <= b,
    ensures
        0 <= suma_pila(pila, b) <= suma_pila(pila, a),
    decreases b - a,
{
    lema_suma_pila_no_negativa(pila, b);
    if a < b {
        lema_suma_pila_mono(pila, a + 1, b);
    }
}

/// Sums taken past the end of the left part of a concatenation only see the
/// right part.
pub proof fn lema_suma_desplazada(p: Seq<(usize, bool)>, q: Seq<(usize, bool)>, j: int)
    requires
        j >= 0,
    ensures
        suma_pila(p + q, p.len() + j) == suma_pila(q, j),
    decreases q.len() - j,
{
    if j < q.len() {
        assert((p + q)[p.len() + j] == q[j]);
        lema_suma_desplazada(p, q, j + 1);
    }
}

/// The sum of a concatenation splits at the boundary.
pub proof fn lema_suma_concat(p: Seq<(usize, bool)>, q: Seq<(usize, bool)>, d: int)
    requires
        0 <= d <= p.len(),
    ensures
        suma_pila(p + q, d) == suma_pila(p, d) + suma_pila(q, 0),
    decreases p.len() - d,
{
    if d < p.len() {
        assert((p + q)[d] == p[d]);
        lema_suma_concat(p, q, d + 1);
    } else {
        lema_suma_desplazada(p, q, 0);
    }
}

/// Pushing a frame adds its size to the total.
pub proof fn lema_suma_push(p: Seq<(usize, bool)>, x: (usize, bool))
    ensures
        suma_pila(p.push(x), 0) == suma_pila(p, 0) + x.0,
{
    assert(p.push(x) =~= p + seq![x]);
    lema_suma_concat(p, seq![x], 0);
    assert(suma_pila(seq![x], 0) == x.0 + suma_pila(seq![x], 1));
}

/// The total of a stack splits at any index into the part below and the part
/// above.
pub proof fn lema_suma_divide(p: Seq<(usize, bool)>, k: int)
    requires
        0 <= k <= p.len(),
    ensures
        suma_pila(p, 0) == suma_pila(p.subrange(0, k), 0) + suma_pila(p, k),
        suma_pila(p, k) == suma_pila(p.subrange(k, p.len() as int), 0),
    decreases k,
{
    let abajo = p.subrange(0, k);
    let arriba = p.subrange(k, p.len() as int);
    assert(p =~= abajo + arriba);
    lema_suma_concat(abajo, arriba, 0);
    lema_suma_desplazada(abajo, arriba, 0);
}

/// The state after giving back frames from the stack: the cursor steps back
/// once, plus once for every popped frame that was not givable; the popped
/// sizes are freed; the stack keeps the frames below the topmost givable one.
pub open spec fn tras_regreso(cur: int, pila: Seq<(usize, bool)>) -> Maquina {
    let k = tope_regreso(pila);
    Maquina {
        cursor: retrocede_n(retrocede(cur), (pila.len() - 1 - k) as nat),
        indice: suma_pila(pila, k),
        pila: pila.subrange(0, k),
    }
}

/// The frames pushed by the greedy phase: one single-character givable frame
/// per extra occurrence.
pub open spec fn marcos_codiciosos(e: nat) -> Seq<(usize, bool)> {
    Seq::new(e, |i: int| (1usize, true))
}

/// One more greedy frame extends the sequence by one.
pub proof fn lema_marcos_paso(e: nat)
    ensures
        marcos_codiciosos(e + 1) == marcos_codiciosos(e).push((1usize, true)),
{
    assert(marcos_codiciosos(e + 1) =~= marcos_codiciosos(e).push((1usize, true)));
}

/// Greedy frames of one character each sum to their count.
pub proof fn lema_suma_marcos(e: nat)
    ensures
        suma_pila(marcos_codiciosos(e), 0) == e,
    decreases e,
{
    if e > 0 {
        lema_suma_marcos((e - 1) as nat);
        lema_marcos_paso((e - 1) as nat);
        lema_suma_push(marcos_codiciosos((e - 1) as nat), (1usize, true));
    } else {
        assert(marcos_codiciosos(0).len() == 0);
    }
}

/// How many extra occurrences the greedy phase consumes: the whole greedy
/// run when the upper bound is absent, otherwise at most the room the bound
/// leaves above the occurrences already taken.
pub open spec fn extras(t: RegexToken, s: Seq<char>, i: int, base: int) -> nat {
    match t.repeticion.max {
        Some(mx) => {
            let tope = if mx >= base {
                mx - base
            } else {
                0
            };
            if racha(t.valor, s, i) <= tope {
                racha(t.valor, s, i)
            } else {
                tope as nat
            }
        },
        None => racha(t.valor, s, i),
    }
}

/// One step of the machine: process the token after the cursor.
pub open spec fn paso(tokens: Seq<RegexToken>, s: Seq<char>, m: Maquina) -> PasoMaquina {
    let c1 = m.cursor + 1;
    if c1 >= tokens.len() {
        PasoMaquina::Termina(true)
    } else {
        let t = tokens[c1];
        if t.valor is AnclajeFinal {
            PasoMaquina::Termina(m.indice == s.len())
        } else {
            match t.repeticion.min {
                Some(n) => {
                    if racha(t.valor, s, m.indice) >= n {
                        PasoMaquina::Sigue(tras_fases(t, s, c1, m.indice + n, n as int,
                            if n > 0 {
                                m.pila.push((n, false))
                            } else {
                                m.pila
                            }))
                    } else {
                        if hay_regreso(m.pila) {
                            let regreso = tras_regreso(c1, m.pila);
                            PasoMaquina::Sigue(Maquina {
                                cursor: regreso.cursor,
                                indice: m.indice - regreso.indice,
                                pila: regreso.pila,
                            })
                        } else {
                            PasoMaquina::Termina(false)
                        }
                    }
                },
                None => PasoMaquina::Sigue(tras_fases(t, s, c1, m.indice, 0, m.pila)),
            }
        }
    }
}

/// The successor state after the greedy phase of the token at cursor `c1`,
/// starting from position `i` with `base` occurrences already taken.
pub open spec fn tras_fases(t: RegexToken, s: Seq<char>, c1: int, i: int, base: int, pila: Seq<
    (usize, bool),
>) -> Maquina {
    let e = extras(t, s, i, base);
    Maquina { cursor: c1, indice: i + e, pila: pila + marcos_codiciosos(e) }
}

/// Runs the machine for at most `combustible` steps beyond the current one;
/// `None` means the allowance ran out before a verdict.
pub open spec fn corre(tokens: Seq<RegexToken>, s: Seq<char>, m: Maquina, combustible: nat) ->
    Option<bool>
    decreases combustible,
{
    match paso(tokens, s, m) {
        PasoMaquina::Termina(b) => Some(b),
        PasoMaquina::Sigue(m2) => {
            if combustible == 0 {
                None
            } else {
                corre(tokens, s, m2, (combustible - 1) as nat)
            }
        },
    }
}

/// The machine state at the start of a match attempt from position `inicio`.
pub open spec fn maquina_inicial(inicio: int) -> Maquina {
    Maquina { cursor: -1, indice: inicio, pila: Seq::empty() }
}

/// The engine's step allowance: a match attempt gives up, and reports no
/// match, after this many machine steps.  The bound is far beyond anything a
/// terminating pattern reaches in practice; it makes every match attempt
/// provably terminating.
pub open spec fn combustible_total() -> nat {
    usize::MAX as nat
}

/// One alternative matches the candidate from position `inicio` exactly when
/// the machine reaches the verdict `true` within the engine's allowance.
pub open spec fn matchea_desde(tokens: Seq<RegexToken>, s: Seq<char>, inicio: int) -> bool {
    corre(tokens, s, maquina_inicial(inicio), combustible_total()) == Some(true)
}

/// One alternative matches the candidate: from the start alone when it is
/// anchored there, from any character position otherwise.  The empty
/// alternative matches everything.
pub open spec fn expresion_matchea(tokens: Seq<RegexToken>, s: Seq<char>) -> bool {
    if tokens.len() == 0 {
        true
    } else if tokens[0].valor is AnclajeInicio {
        matchea_desde(tokens, s, 0)
    } else {
        exists|i: int| 0 <= i < s.len() && matchea_desde(tokens, s, i)
    }
}

} // verus!
