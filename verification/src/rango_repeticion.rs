//! Parsing of repetition suffixes: `?`, `*`, `+` and `{...}` ranges.

use vstd::prelude::*;
use crate::clase_caracter::es_digito;
use crate::error_regex::ErrorRegex;
use crate::iterador_vec::{
    IteradorVecHaciaAtras, lema_largo_elementos, lema_retrocede_n_paso, retrocede, retrocede_n,
};
use crate::repeticion_regex_token::RepeticionRegexToken;

verus! {

/// Outcome of scanning the body of a `{...}` range from the character after
/// the brace.
pub enum EscaneoRango {
    /// A third comma arrived: the body is malformed.  Carries the position
    /// of the offending character.
    Invalido(int),
    /// The characters ran out before a closing brace.
    Agotado,
    /// A character that fits no range arrived at this position: the brace is
    /// no repetition at all.
    Corte(int),
    /// A closing brace at this position ends a well-formed body.
    Cierre(int),
}

/// Scans a `{...}` body: digits and at most one comma, ended by `}`.  Any
/// other character stops the scan; a second comma followed by anything is an
/// error.
pub open spec fn escanea_rango(cs: Seq<char>, j: int, comas: int) -> EscaneoRango
    decreases cs.len() - j,
{
    if j < 0 || j >= cs.len() {
        EscaneoRango::Agotado
    } else if comas > 1 {
        EscaneoRango::Invalido(j)
    } else if es_digito(cs[j]) {
        escanea_rango(cs, j + 1, comas)
    } else if cs[j] == ',' {
        escanea_rango(cs, j + 1, comas + 1)
    } else if cs[j] == '}' {
        EscaneoRango::Cierre(j)
    } else {
        EscaneoRango::Corte(j)
    }
}

/// Numeric value of one ASCII digit.
pub open spec fn valor_de_digito(c: char) -> nat {
    if 0x30 <= (c as u32) {
        ((c as u32) - 0x30) as nat
    } else {
        0
    }
}

/// Numeric value of a digit string, most significant digit first.
pub open spec fn valor_digitos(ds: Seq<char>) -> nat
    decreases ds.len(),
{
    if ds.len() == 0 {
        0
    } else {
        valor_digitos(ds.drop_last()) * 10 + valor_de_digito(ds.last())
    }
}

/// Every character of the string is an ASCII digit.
pub open spec fn todos_digitos(ds: Seq<char>) -> bool {
    forall|i: int| 0 <= i < ds.len() ==> es_digito(ds[i])
}

/// What parsing a range field yields: its numeric value, or nothing when the
/// field is empty, holds a non-digit, or overflows the machine integer.
pub open spec fn campo_numerico(ds: Seq<char>) -> Option<usize> {
    if ds.len() > 0 && todos_digitos(ds) && valor_digitos(ds) <= usize::MAX {
        Some(valor_digitos(ds) as usize)
    } else {
        None
    }
}

/// Position of the first comma of the body, or `-1` when it has none.
pub open spec fn posicion_coma(cont: Seq<char>, j: int) -> int
    decreases cont.len() - j,
{
    if j < 0 || j >= cont.len() {
        -1
    } else if cont[j] == ',' {
        j
    } else {
        posicion_coma(cont, j + 1)
    }
}

/// The two bounds encoded by a range body: a body without a comma repeats an
/// exact number of times, otherwise each side of the comma gives one bound,
/// an unparsable side meaning unbounded.
pub open spec fn valores_del_contenido(cont: Seq<char>) -> (Option<usize>, Option<usize>) {
    let k = posicion_coma(cont, 0);
    if k < 0 {
        let v = campo_numerico(cont);
        (v, v)
    } else {
        (
            campo_numerico(cont.subrange(0, k)),
            campo_numerico(cont.subrange(k + 1, cont.len() as int)),
        )
    }
}

/// What parsing a `{...}` range starting after the brace at `q - 1` yields:
/// nothing when the brace opens no range, an error when the body is
/// malformed or its bounds are inverted, and the repetition otherwise.
pub open spec fn resultado_rango(cs: Seq<char>, q: int) -> Result<
    Option<RepeticionRegexToken>,
    ErrorRegex,
> {
    match escanea_rango(cs, q, 0) {
        EscaneoRango::Invalido(_) => Err(ErrorRegex::ContenidoInvalidoRepeticion),
        EscaneoRango::Agotado => Ok(None),
        EscaneoRango::Corte(_) => Ok(None),
        EscaneoRango::Cierre(f) => {
            if f == q {
                Err(ErrorRegex::ContenidoInvalidoRepeticion)
            } else {
                let pareja = valores_del_contenido(cs.subrange(q, f));
                if pareja.0 matches Some(a) && pareja.1 matches Some(b) && a > b {
                    Err(ErrorRegex::ContenidoInvalidoRepeticion)
                } else {
                    Ok(Some(RepeticionRegexToken { min: pareja.0, max: pareja.1 }))
                }
            }
        },
    }
}

/// Where the cursor stands after the attempt: on the closing brace of a
/// range, back on the brace itself when it opened no range, and on the
/// offending character after a malformed body.
pub open spec fn pos_tras_rango(cs: Seq<char>, q: int) -> int {
    match escanea_rango(cs, q, 0) {
        EscaneoRango::Invalido(j) => j,
        EscaneoRango::Agotado => retrocede_n(
            retrocede(cs.len() as int),
            (cs.len() - q) as nat,
        ),
        EscaneoRango::Corte(j) => retrocede_n(j, (j - q + 1) as nat),
        EscaneoRango::Cierre(f) => f,
    }
}

/// What a repetition character yields: `*`, `?` and `+` map to their fixed
/// ranges, `{` attempts a range body, and anything else yields nothing.
pub open spec fn resultado_repeticion(c: char, cs: Seq<char>, q: int) -> Result<
    Option<RepeticionRegexToken>,
    ErrorRegex,
> {
    if c == '*' {
        Ok(Some(RepeticionRegexToken { min: None, max: None }))
    } else if c == '?' {
        Ok(Some(RepeticionRegexToken { min: None, max: Some(1usize) }))
    } else if c == '+' {
        Ok(Some(RepeticionRegexToken { min: Some(1usize), max: None }))
    } else if c == '{' {
        resultado_rango(cs, q)
    } else {
        Ok(None)
    }
}

/// Where the cursor stands after `obtener_repeticion`: only a `{` moves it.
pub open spec fn pos_tras_repeticion(c: char, cs: Seq<char>, q: int) -> int {
    if c == '{' {
        pos_tras_rango(cs, q)
    } else {
        q - 1
    }
}

/// Decides whether a character is an ASCII digit.
fn es_digito_caracter(c: char) -> (r: bool)
    ensures
        r == es_digito(c),
{
    let u = c as u32;
    0x30 <= u && u <= 0x39
}

/// Wherever the scan of a range body stops, it stops at a character of the
/// body.
pub proof fn lema_escanea_rango_cota(cs: Seq<char>, j: int, comas: int)
    requires
        0 <= j,
    ensures
        match escanea_rango(cs, j, comas) {
            EscaneoRango::Invalido(p) => j <= p < cs.len(),
            EscaneoRango::Agotado => true,
            EscaneoRango::Corte(p) => j <= p < cs.len(),
            EscaneoRango::Cierre(p) => j <= p < cs.len(),
        },
    decreases cs.len() - j,
{
    if 0 <= j && j < cs.len() && comas <= 1 {
        if es_digito(cs[j]) {
            lema_escanea_rango_cota(cs, j + 1, comas);
        } else if cs[j] == ',' {
            lema_escanea_rango_cota(cs, j + 1, comas + 1);
        }
    }
}

/// A digit string only grows in value as more digits arrive.
proof fn lema_valor_digitos_crece(ds: Seq<char>, j: int)
    requires
        0 <= j <= ds.len(),
    ensures
        valor_digitos(ds.subrange(0, j)) <= valor_digitos(ds),
    decreases ds.len() - j,
{
    if j < ds.len() {
        lema_valor_digitos_crece(ds, j + 1);
        let corto = ds.subrange(0, j);
        let largo = ds.subrange(0, j + 1);
        assert(largo.drop_last() =~= corto);
        assert(valor_digitos(largo) == valor_digitos(corto) * 10 + valor_de_digito(largo.last()));
    } else {
        assert(ds.subrange(0, j) =~= ds);
    }
}

/// Parses the slice `[desde, hasta)` of a digit vector as a machine
/// integer, yielding nothing when it is empty, holds a non-digit, or
/// overflows.
fn valor_de_campo(cont: &Vec<char>, desde: usize, hasta: usize) -> (r: Option<usize>)
    requires
        desde <= hasta <= cont@.len(),
    ensures
        r == campo_numerico(cont@.subrange(desde as int, hasta as int)),
{
    let ghost campo = cont@.subrange(desde as int, hasta as int);
    if desde == hasta {
        return None;
    }
    let mut acc: usize = 0;
    let mut i: usize = desde;
    while i < hasta
        invariant
            desde <= i <= hasta <= cont@.len(),
            campo == cont@.subrange(desde as int, hasta as int),
            todos_digitos(campo.subrange(0, i - desde)),
            acc == valor_digitos(campo.subrange(0, i - desde)),
        decreases hasta - i,
    {
        let c = cont[i];
        let ghost visto = campo.subrange(0, i - desde);
        let ghost visto2 = campo.subrange(0, i + 1 - desde);
        proof {
            assert(visto2.drop_last() =~= visto);
            assert(visto2.last() == campo[i - desde]);
            assert(campo[i - desde] == cont@[i as int]);
        }
        if !es_digito_caracter(c) {
            proof {
                assert(!todos_digitos(campo));
            }
            return None;
        }
        let d = (c as u32 - 0x30) as usize;
        if acc > (usize::MAX - d) / 10 {
            proof {
                assert(valor_digitos(visto2) == acc * 10 + d);
                assert(valor_digitos(visto2) > usize::MAX);
                lema_valor_digitos_crece(campo, i + 1 - desde);
            }
            return None;
        }
        acc = acc * 10 + d;
        i = i + 1;
    }
    proof {
        assert(campo.subrange(0, (hasta - desde) as int) =~= campo);
    }
    Some(acc)
}

/// Splits the range body at its comma, if any, and yields the two bounds it
/// encodes.
fn valores_rango(cont: &Vec<char>) -> (r: (Option<usize>, Option<usize>))
    ensures
        r == valores_del_contenido(cont@),
{
    let largo = cont.len();
    let mut coma: usize = 0;
    let mut hay_coma = false;
    let mut i: usize = 0;
    while i < largo
        invariant_except_break
            !hay_coma,
            posicion_coma(cont@, 0) == posicion_coma(cont@, i as int),
        invariant
            largo == cont@.len(),
            i <= largo,
        ensures
            hay_coma ==> 0 <= coma < cont@.len() && posicion_coma(cont@, 0) == coma,
            !hay_coma ==> posicion_coma(cont@, 0) == -1,
        decreases cont@.len() - i,
    {
        if cont[i] == ',' {
            proof {
                assert(posicion_coma(cont@, i as int) == i);
            }
            coma = i;
            hay_coma = true;
            break ;
        }
        i = i + 1;
    }
    if !hay_coma {
        let v = valor_de_campo(cont, 0, largo);
        proof {
            assert(cont@.subrange(0, cont@.len() as int) =~= cont@);
        }
        (v, v)
    } else {
        let mn = valor_de_campo(cont, 0, coma);
        let mx = valor_de_campo(cont, coma + 1, largo);
        (mn, mx)
    }
}

/// Walks the characters after a `{`, counting steps and commas, until it
/// can tell whether they form a range body: `Ok(true)` on a closing brace,
/// `Ok(false)` when a foreign character or the end of the pattern stops the
/// scan, and the content error when a second comma is followed by anything.
/// When the characters run out, the cursor steps back once so that the
/// caller's rewind by `pasos_adelante` lands on the character before the
/// opening brace in every failing case.
fn es_rango(
    iter_chars: &mut IteradorVecHaciaAtras<char>,
    pasos_adelante: &mut usize,
    comas: &mut usize,
) -> (r: Result<bool, ErrorRegex>)
    requires
        old(iter_chars).valido(),
        old(iter_chars).posicion() < old(iter_chars).elementos().len(),
        *old(pasos_adelante) == 0,
        *old(comas) == 0,
    ensures
        final(iter_chars).elementos() == old(iter_chars).elementos(),
        final(iter_chars).valido(),
        ({
            let cs = old(iter_chars).elementos();
            let q = old(iter_chars).posicion() + 1;
            match escanea_rango(cs, q, 0) {
                EscaneoRango::Invalido(j) => {
                    &&& r == Err::<bool, ErrorRegex>(ErrorRegex::ContenidoInvalidoRepeticion)
                    &&& final(iter_chars).posicion() == j
                },
                EscaneoRango::Agotado => {
                    &&& r == Ok::<bool, ErrorRegex>(false)
                    &&& final(iter_chars).posicion() == retrocede(cs.len() as int)
                    &&& *final(pasos_adelante) == cs.len() - q
                },
                EscaneoRango::Corte(j) => {
                    &&& r == Ok::<bool, ErrorRegex>(false)
                    &&& final(iter_chars).posicion() == j
                    &&& *final(pasos_adelante) == j - q + 1
                },
                EscaneoRango::Cierre(f) => {
                    &&& r == Ok::<bool, ErrorRegex>(true)
                    &&& final(iter_chars).posicion() == f
                    &&& *final(pasos_adelante) == f - q + 1
                },
            }
        }),
{
    let ghost cs = old(iter_chars).elementos();
    let ghost q = old(iter_chars).posicion() + 1;
    proof {
        lema_largo_elementos(*iter_chars);
    }
    loop
        invariant
            cs == old(iter_chars).elementos(),
            q == old(iter_chars).posicion() + 1,
            cs.len() <= usize::MAX,
            iter_chars.elementos() == cs,
            iter_chars.valido(),
            -1 <= old(iter_chars).posicion(),
            iter_chars.posicion() + 1 == q + *pasos_adelante,
            iter_chars.posicion() + 1 <= cs.len(),
            *comas <= 2,
            escanea_rango(cs, q, 0) == escanea_rango(
                cs,
                iter_chars.posicion() + 1,
                *comas as int,
            ),
        decreases cs.len() - iter_chars.posicion(),
    {
        let proximo = iter_chars.next();
        match proximo {
            None => {
                let _ = iter_chars.prev();
                return Ok(false);
            },
            Some(c) => {
                if *comas > 1 {
                    return Err(ErrorRegex::ContenidoInvalidoRepeticion);
                }
                *pasos_adelante = *pasos_adelante + 1;
                if es_digito_caracter(*c) {
                    // a digit keeps the scan going
                } else if *c == ',' {
                    *comas = *comas + 1;
                } else if *c == '}' {
                    return Ok(true);
                } else {
                    return Ok(false);
                }
            },
        }
    }
}

/// Reads the body of a possible `{...}` range.  When the characters form no
/// range the cursor is rewound onto the character before the brace, so the
/// brace itself is next treated as a literal; when they do, the body is
/// returned and the cursor rests on the closing brace.
fn obtener_contenido_de_rango_repeticion(iter_chars: &mut IteradorVecHaciaAtras<char>) -> (r:
    Result<Option<Vec<char>>, ErrorRegex>)
    requires
        old(iter_chars).valido(),
        old(iter_chars).posicion() < old(iter_chars).elementos().len(),
    ensures
        final(iter_chars).elementos() == old(iter_chars).elementos(),
        final(iter_chars).valido(),
        ({
            let cs = old(iter_chars).elementos();
            let q = old(iter_chars).posicion() + 1;
            &&& final(iter_chars).posicion() == pos_tras_rango(cs, q)
            &&& (match escanea_rango(cs, q, 0) {
                EscaneoRango::Invalido(_) => r == Err::<Option<Vec<char>>, ErrorRegex>(
                    ErrorRegex::ContenidoInvalidoRepeticion,
                ),
                EscaneoRango::Agotado => r == Ok::<Option<Vec<char>>, ErrorRegex>(None),
                EscaneoRango::Corte(_) => r == Ok::<Option<Vec<char>>, ErrorRegex>(None),
                EscaneoRango::Cierre(f) => {
                    if f == q {
                        r == Err::<Option<Vec<char>>, ErrorRegex>(
                            ErrorRegex::ContenidoInvalidoRepeticion,
                        )
                    } else {
                        r matches Ok(Some(v)) && v@ == cs.subrange(q, f)
                    }
                },
            })
        }),
{
    let ghost cs = old(iter_chars).elementos();
    let ghost q = old(iter_chars).posicion() + 1;
    let mut pasos_adelante: usize = 0;
    let mut comas: usize = 0;
    let rango = es_rango(iter_chars, &mut pasos_adelante, &mut comas)?;
    proof {
        lema_escanea_rango_cota(cs, q, 0);
    }
    if !rango {
        let mut i: usize = 0;
        while i < pasos_adelante
            invariant
                cs == old(iter_chars).elementos(),
                q == old(iter_chars).posicion() + 1,
                0 <= q <= cs.len(),
                iter_chars.elementos() == cs,
                iter_chars.valido(),
                i <= pasos_adelante,
                ({
                    match escanea_rango(cs, q, 0) {
                        EscaneoRango::Agotado => iter_chars.posicion() == retrocede_n(
                            retrocede(cs.len() as int),
                            i as nat,
                        ) && pasos_adelante == cs.len() - q,
                        EscaneoRango::Corte(j) => iter_chars.posicion() == retrocede_n(
                            j,
                            i as nat,
                        ) && pasos_adelante == j - q + 1,
                        _ => false,
                    }
                }),
            decreases pasos_adelante - i,
        {
            proof {
                match escanea_rango(cs, q, 0) {
                    EscaneoRango::Agotado => {
                        lema_retrocede_n_paso(retrocede(cs.len() as int), i as nat);
                    },
                    EscaneoRango::Corte(j) => {
                        lema_retrocede_n_paso(j, i as nat);
                    },
                    _ => {},
                }
            }
            let _ = iter_chars.prev();
            i = i + 1;
        }
        Ok(None)
    } else {
        if pasos_adelante == 1 {
            return Err(ErrorRegex::ContenidoInvalidoRepeticion);
        }
        let ghost f = iter_chars.posicion();
        let mut contenido_rev: Vec<char> = Vec::new();
        let mut i: usize = 0;
        while i < pasos_adelante - 1
            invariant
                cs == old(iter_chars).elementos(),
                q == old(iter_chars).posicion() + 1,
                iter_chars.elementos() == cs,
                iter_chars.valido(),
                i <= pasos_adelante - 1,
                escanea_rango(cs, q, 0) == EscaneoRango::Cierre(f),
                pasos_adelante == f - q + 1,
                0 <= q <= f < cs.len(),
                iter_chars.posicion() == f - i,
                contenido_rev@.len() == i,
                forall|k: int| 0 <= k < i ==> contenido_rev@[k] == cs[f - 1 - k],
            decreases pasos_adelante - i,
        {
            match iter_chars.prev() {
                Some(c) => {
                    contenido_rev.push(*c);
                },
                None => {
                    proof {
                        assert(false);
                    }
                },
            }
            i = i + 1;
        }
        let mut contenido: Vec<char> = Vec::new();
        let mut i2: usize = contenido_rev.len();
        while i2 > 0
            invariant
                contenido_rev@.len() == pasos_adelante - 1,
                i2 <= contenido_rev@.len(),
                contenido@.len() == contenido_rev@.len() - i2,
                forall|k: int|
                    0 <= k < contenido@.len() ==> contenido@[k] == contenido_rev@[contenido_rev@.len() - 1 - k],
            decreases i2,
        {
            i2 = i2 - 1;
            contenido.push(contenido_rev[i2]);
        }
        let mut i3: usize = 0;
        while i3 < pasos_adelante - 1
            invariant
                cs == old(iter_chars).elementos(),
                q == old(iter_chars).posicion() + 1,
                iter_chars.elementos() == cs,
                iter_chars.valido(),
                i3 <= pasos_adelante - 1,
                escanea_rango(cs, q, 0) == EscaneoRango::Cierre(f),
                pasos_adelante == f - q + 1,
                0 <= q <= f < cs.len(),
                iter_chars.posicion() == q + i3,
            decreases pasos_adelante - i3,
        {
            let _ = iter_chars.next();
            i3 = i3 + 1;
        }
        proof {
            assert(contenido@ =~= cs.subrange(q, f));
        }
        Ok(Some(contenido))
    }
}

/// Attempts to turn a possible `{...}` range into a repetition: errors on a
/// malformed or inverted body, nothing when the brace opens no range.
fn obtener_rango_repeticion(iter_chars: &mut IteradorVecHaciaAtras<char>) -> (r: Result<
    Option<RepeticionRegexToken>,
    ErrorRegex,
>)
    requires
        old(iter_chars).valido(),
        old(iter_chars).posicion() < old(iter_chars).elementos().len(),
    ensures
        final(iter_chars).elementos() == old(iter_chars).elementos(),
        final(iter_chars).valido(),
        ({
            let cs = old(iter_chars).elementos();
            let q = old(iter_chars).posicion() + 1;
            &&& r == resultado_rango(cs, q)
            &&& final(iter_chars).posicion() == pos_tras_rango(cs, q)
        }),
{
    let contenido_rango = obtener_contenido_de_rango_repeticion(iter_chars)?;
    match contenido_rango {
        Some(contenido) => {
            let pareja = valores_rango(&contenido);
            let invalido = match (pareja.0, pareja.1) {
                (Some(a), Some(b)) => a > b,
                _ => false,
            };
            if invalido {
                return Err(ErrorRegex::ContenidoInvalidoRepeticion);
            }
            Ok(Some(RepeticionRegexToken::new(pareja.0, pareja.1)))
        },
        None => Ok(None),
    }
}

/// Turns a repetition character into its repetition range: `*`, `?` and `+`
/// map directly, `{` attempts to read a range body (rewinding the cursor
/// when none follows), and any other character yields nothing.
pub fn obtener_repeticion(c: char, iter_chars: &mut IteradorVecHaciaAtras<char>) -> (r: Result<
    Option<RepeticionRegexToken>,
    ErrorRegex,
>)
    requires
        old(iter_chars).valido(),
        old(iter_chars).posicion() < old(iter_chars).elementos().len(),
    ensures
        final(iter_chars).elementos() == old(iter_chars).elementos(),
        final(iter_chars).valido(),
        ({
            let cs = old(iter_chars).elementos();
            let q = old(iter_chars).posicion() + 1;
            &&& r == resultado_repeticion(c, cs, q)
            &&& final(iter_chars).posicion() == pos_tras_repeticion(c, cs, q)
        }),
{
    if c == '*' {
        Ok(Some(RepeticionRegexToken::new(None, None)))
    } else if c == '?' {
        Ok(Some(RepeticionRegexToken::new(None, Some(1))))
    } else if c == '+' {
        Ok(Some(RepeticionRegexToken::new(Some(1), None)))
    } else if c == '{' {
        obtener_rango_repeticion(iter_chars)
    } else {
        Ok(None)
    }
}

} // verus!
