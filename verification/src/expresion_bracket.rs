//! Parsing of bracket expressions: `[...]` and `[^...]`, with embedded
//! `[:name:]` character classes.
//!
//! The parse has two stages.  First the body of the bracket is read from the
//! pattern cursor, honouring the rule that a `]` does not close the bracket
//! when an inner `[:` class is open and the previous character was `:`.
//! Then the body is parsed into a list of character-class predicates, with
//! `^` at its head marking negation.

use vstd::prelude::*;
use crate::cadena::{caracter_de, caracteres_igual_a_cadena, copia_caracter};
use crate::clase_caracter::{ClaseCaracter, clase_de_nombre};
use crate::error_expresion_bracket::ErrorExpresionBracket;
use crate::iterador_vec::IteradorVecHaciaAtras;
use crate::regex_token::RegexToken;
use crate::repeticion_regex_token::RepeticionRegexToken;
use crate::valor_regex_token::ValorRegexToken;

verus! {

/// Whether a `]` may close the bracket: always, unless an inner class is
/// open and the body read so far ends with `:`.
pub open spec fn puede_cerrar(abierta: bool, cont: Seq<char>) -> bool {
    !abierta || cont.len() == 0 || cont.last() != ':'
}

/// Scans the body of a bracket that opened just before position `q`,
/// tracking whether an inner `[:` class is open, and yields the position of
/// the closing `]`, or nothing when the pattern ends first.
pub open spec fn escanea_bracket(cs: Seq<char>, q: int, j: int, abierta: bool) -> Option<int>
    decreases cs.len() - j,
{
    if j < 0 || j >= cs.len() {
        None
    } else if cs[j] == ']' {
        if puede_cerrar(abierta, cs.subrange(q, j)) {
            Some(j)
        } else {
            escanea_bracket(cs, q, j + 1, false)
        }
    } else if cs[j] == '[' {
        escanea_bracket(
            cs,
            q,
            j + 1,
            if j + 1 < cs.len() && cs[j + 1] == ':' {
                true
            } else {
                abierta
            },
        )
    } else {
        escanea_bracket(cs, q, j + 1, abierta)
    }
}

/// The scan stops inside the character sequence.
pub proof fn lema_escanea_bracket_cota(cs: Seq<char>, q: int, j: int, abierta: bool)
    ensures
        escanea_bracket(cs, q, j, abierta) matches Some(p) ==> j <= p < cs.len(),
    decreases cs.len() - j,
{
    if 0 <= j && j < cs.len() {
        if cs[j] == ']' {
            if !puede_cerrar(abierta, cs.subrange(q, j)) {
                lema_escanea_bracket_cota(cs, q, j + 1, false);
            }
        } else if cs[j] == '[' {
            lema_escanea_bracket_cota(
                cs,
                q,
                j + 1,
                if j + 1 < cs.len() && cs[j + 1] == ':' {
                    true
                } else {
                    abierta
                },
            );
        } else {
            lema_escanea_bracket_cota(cs, q, j + 1, abierta);
        }
    }
}

/// Every character of the body is a colon.
pub open spec fn solo_dos_puntos(cont: Seq<char>) -> bool {
    forall|i: int| 0 <= i < cont.len() ==> cont[i] == ':'
}

/// The body reads like a bare `:name:` class written without its outer
/// brackets: it starts and ends with `:` yet holds other characters.
pub open spec fn sintaxis_mala(cont: Seq<char>) -> bool {
    cont.len() > 0 && cont[0] == ':' && cont[cont.len() - 1] == ':' && !solo_dos_puntos(cont)
}

/// Position of the first `]` of the body at or after `j`, or the body's
/// length when there is none.
pub open spec fn primer_cierre(cont: Seq<char>, j: int) -> int
    decreases cont.len() - j,
{
    if j < 0 || j >= cont.len() {
        cont.len() as int
    } else if cont[j] == ']' {
        j
    } else {
        primer_cierre(cont, j + 1)
    }
}

/// The first `]` lies between the scan start and the end of the body.
pub proof fn lema_primer_cierre_cota(cont: Seq<char>, j: int)
    requires
        0 <= j <= cont.len(),
    ensures
        j <= primer_cierre(cont, j) <= cont.len(),
        primer_cierre(cont, j) < cont.len() ==> cont[primer_cierre(cont, j)] == ']',
        forall|k: int| j <= k < primer_cierre(cont, j) ==> cont[k] != ']',
    decreases cont.len() - j,
{
    if j < cont.len() && cont[j] != ']' {
        lema_primer_cierre_cota(cont, j + 1);
    }
}

/// Parses the characters of a bracket body from position `j` into a list of
/// character-class predicates: a `[` followed by `:` opens a named class
/// ended by `:]`, any other character stands for itself.
pub open spec fn parsea_resto(cont: Seq<char>, j: int) -> Result<
    Seq<ClaseCaracter>,
    ErrorExpresionBracket,
>
    decreases cont.len() - j,
        via parsea_resto_decrece

{
    if j < 0 || j >= cont.len() {
        Ok(Seq::empty())
    } else if cont[j] == '[' {
        if j + 1 >= cont.len() {
            Ok(seq![ClaseCaracter::Literal('[')])
        } else if cont[j + 1] == ':' {
            let p = primer_cierre(cont, j + 2);
            if p >= cont.len() {
                Err(ErrorExpresionBracket::BracketNoMatchea)
            } else if p == j + 2 || cont[p - 1] != ':' {
                Err(ErrorExpresionBracket::BracketNoMatchea)
            } else {
                match clase_de_nombre(cont.subrange(j + 2, p - 1)) {
                    Some(cl) => match parsea_resto(cont, p + 1) {
                        Ok(resto) => Ok(seq![cl] + resto),
                        Err(e) => Err(e),
                    },
                    None => Err(ErrorExpresionBracket::NombreClaseInvalido),
                }
            }
        } else {
            match parsea_resto(cont, j + 2) {
                Ok(resto) => Ok(
                    seq![ClaseCaracter::Literal('['), ClaseCaracter::Literal(cont[j + 1])] + resto,
                ),
                Err(e) => Err(e),
            }
        }
    } else {
        match parsea_resto(cont, j + 1) {
            Ok(resto) => Ok(seq![ClaseCaracter::Literal(cont[j])] + resto),
            Err(e) => Err(e),
        }
    }
}

#[via_fn]
proof fn parsea_resto_decrece(cont: Seq<char>, j: int) {
    if 0 <= j && j < cont.len() && cont[j] == '[' && j + 1 < cont.len() && cont[j + 1] == ':' {
        lema_primer_cierre_cota(cont, j + 2);
    }
}

/// What a bracket body denotes: whether the expression is negated, and its
/// list of predicates.  An empty body is an error.
pub open spec fn clases_de_contenido(cont: Seq<char>) -> Result<
    (bool, Seq<ClaseCaracter>),
    ErrorExpresionBracket,
> {
    if cont.len() == 0 {
        Err(ErrorExpresionBracket::BracketNoMatchea)
    } else if cont[0] == '^' {
        match parsea_resto(cont, 1) {
            Ok(clases) => Ok((true, clases)),
            Err(e) => Err(e),
        }
    } else {
        match parsea_resto(cont, 0) {
            Ok(clases) => Ok((false, clases)),
            Err(e) => Err(e),
        }
    }
}

/// What the bracket expression opened just before position `q` denotes.
pub open spec fn resultado_bracket(cs: Seq<char>, q: int) -> Result<
    (bool, Seq<ClaseCaracter>),
    ErrorExpresionBracket,
> {
    match escanea_bracket(cs, q, q, false) {
        None => Err(ErrorExpresionBracket::BracketNoMatchea),
        Some(j) => {
            let cont = cs.subrange(q, j);
            if sintaxis_mala(cont) {
                Err(ErrorExpresionBracket::SintaxisClaseInvalida)
            } else {
                clases_de_contenido(cont)
            }
        },
    }
}

/// Where the pattern cursor stands after the bracket parse: on the closing
/// `]`, or at the end of the pattern when the bracket never closes.
pub open spec fn pos_tras_bracket(cs: Seq<char>, q: int) -> int {
    match escanea_bracket(cs, q, q, false) {
        Some(j) => j,
        None => cs.len() as int,
    }
}

/// Whether a `]` may close the bracket whose body read so far is
/// `contenido`.
fn cerrar_contenido(clase_caracter_abierta: bool, contenido: &Vec<char>) -> (r: bool)
    ensures
        r == puede_cerrar(clase_caracter_abierta, contenido@),
{
    if clase_caracter_abierta {
        if contenido.len() > 0 {
            return contenido[contenido.len() - 1] != ':';
        }
    }
    true
}

/// Peeks at the character after an inner `[`: a following `:` opens an
/// inner class.  The cursor is left where it stood, except at the very end
/// of the pattern, where the failed peek leaves it on the end mark.
fn abrir_o_no_clase_caracter(
    clase_caracter_abierta: &mut bool,
    iter_chars: &mut IteradorVecHaciaAtras<char>,
)
    requires
        old(iter_chars).valido(),
        0 <= old(iter_chars).posicion(),
    ensures
        final(iter_chars).elementos() == old(iter_chars).elementos(),
        final(iter_chars).valido(),
        ({
            let cs = old(iter_chars).elementos();
            let j = old(iter_chars).posicion();
            if j + 1 < cs.len() {
                &&& final(iter_chars).posicion() == j
                &&& *final(clase_caracter_abierta) == (*old(clase_caracter_abierta) || cs[j + 1]
                    == ':')
            } else {
                &&& final(iter_chars).posicion() == cs.len()
                &&& *final(clase_caracter_abierta) == *old(clase_caracter_abierta)
            }
        }),
{
    let siguiente = iter_chars.next();
    match siguiente {
        Some(siguiente_c) => {
            if *siguiente_c == ':' {
                *clase_caracter_abierta = true;
            }
            let _ = iter_chars.prev();
        },
        None => {},
    }
}

/// Reads the body of a bracket expression from the pattern cursor, up to
/// the `]` that closes it; a bracket that never closes is an error.
fn obtener_contenido_de_bracket(iter_chars: &mut IteradorVecHaciaAtras<char>) -> (r: Result<
    Vec<char>,
    ErrorExpresionBracket,
>)
    requires
        old(iter_chars).valido(),
        old(iter_chars).posicion() < old(iter_chars).elementos().len(),
    ensures
        final(iter_chars).elementos() == old(iter_chars).elementos(),
        final(iter_chars).valido(),
        ({
            let cs = old(iter_chars).elementos();
            let q = old(iter_chars).posicion() + 1;
            &&& final(iter_chars).posicion() == pos_tras_bracket(cs, q)
            &&& (match escanea_bracket(cs, q, q, false) {
                Some(j) => r matches Ok(v) && v@ == cs.subrange(q, j),
                None => r == Err::<Vec<char>, ErrorExpresionBracket>(
                    ErrorExpresionBracket::BracketNoMatchea,
                ),
            })
        }),
{
    let ghost cs = old(iter_chars).elementos();
    let ghost q = old(iter_chars).posicion() + 1;
    let mut contenido: Vec<char> = Vec::new();
    let mut clase_caracter_abierta = false;
    let ghost mut j_esc: int = q;
    loop
        invariant
            cs == old(iter_chars).elementos(),
            q == old(iter_chars).posicion() + 1,
            0 <= q <= cs.len(),
            iter_chars.elementos() == cs,
            iter_chars.valido(),
            q <= j_esc <= cs.len(),
            contenido@ == cs.subrange(q, j_esc),
            iter_chars.posicion() + 1 == j_esc || (iter_chars.posicion() == cs.len() && j_esc
                == cs.len()),
            escanea_bracket(cs, q, q, false) == escanea_bracket(
                cs,
                q,
                j_esc,
                clase_caracter_abierta,
            ),
        decreases cs.len() - j_esc,
    {
        let proximo = iter_chars.next();
        match proximo {
            None => {
                return Err(ErrorExpresionBracket::BracketNoMatchea);
            },
            Some(c) => {
                if *c == ']' {
                    if cerrar_contenido(clase_caracter_abierta, &contenido) {
                        return Ok(contenido);
                    } else {
                        contenido.push(']');
                        clase_caracter_abierta = false;
                    }
                } else if *c == '[' {
                    abrir_o_no_clase_caracter(&mut clase_caracter_abierta, iter_chars);
                    contenido.push('[');
                } else {
                    contenido.push(*c);
                }
                proof {
                    j_esc = j_esc + 1;
                    assert(contenido@ =~= cs.subrange(q, j_esc));
                }
            },
        }
    }
}

/// Every character of the body is a colon.
fn tiene_solo_dos_puntos(contenido: &Vec<char>) -> (r: bool)
    ensures
        r == solo_dos_puntos(contenido@),
{
    let mut i: usize = 0;
    while i < contenido.len()
        invariant
            i <= contenido@.len(),
            forall|j: int| 0 <= j < i ==> contenido@[j] == ':',
        decreases contenido@.len() - i,
    {
        if contenido[i] != ':' {
            return false;
        }
        i = i + 1;
    }
    true
}

/// The body reads like a `:name:` class written without its outer brackets.
fn tiene_error_sintaxis(contenido: &Vec<char>) -> (r: bool)
    ensures
        r == sintaxis_mala(contenido@),
{
    if contenido.len() > 0 {
        let primero = contenido[0];
        let ultimo = contenido[contenido.len() - 1];
        primero == ':' && ultimo == ':' && !tiene_solo_dos_puntos(contenido)
    } else {
        false
    }
}

/// Builds the class a name written in characters designates.
fn clase_de_caracteres(nombre: &Vec<char>) -> (r: Result<ClaseCaracter, ErrorExpresionBracket>)
    ensures
        r == (match clase_de_nombre(nombre@) {
            Some(cl) => Result::<ClaseCaracter, ErrorExpresionBracket>::Ok(cl),
            None => Result::<ClaseCaracter, ErrorExpresionBracket>::Err(
                ErrorExpresionBracket::NombreClaseInvalido,
            ),
        }),
{
    if caracteres_igual_a_cadena(nombre, "alnum") {
        Ok(ClaseCaracter::Alfanumerico)
    } else if caracteres_igual_a_cadena(nombre, "alpha") {
        Ok(ClaseCaracter::Alfabetico)
    } else if caracteres_igual_a_cadena(nombre, "digit") {
        Ok(ClaseCaracter::Digito)
    } else if caracteres_igual_a_cadena(nombre, "lower") {
        Ok(ClaseCaracter::Minuscula)
    } else if caracteres_igual_a_cadena(nombre, "upper") {
        Ok(ClaseCaracter::Mayuscula)
    } else if caracteres_igual_a_cadena(nombre, "space") {
        Ok(ClaseCaracter::Espacio)
    } else if caracteres_igual_a_cadena(nombre, "punct") {
        Ok(ClaseCaracter::Puntuacion)
    } else {
        Err(ErrorExpresionBracket::NombreClaseInvalido)
    }
}

/// Reads the name of an inner class: the characters up to the `:]` that
/// closes it, without the final colon.  A missing or misplaced closing is
/// an error.
fn obtener_contenido_de_clase_caracter(contenido: &Vec<char>, indice: &mut usize) -> (r: Result<
    Vec<char>,
    ErrorExpresionBracket,
>)
    requires
        *old(indice) <= contenido@.len(),
    ensures
        ({
            let j2 = *old(indice) as int;
            let p = primer_cierre(contenido@, j2);
            if p >= contenido@.len() {
                r == Err::<Vec<char>, ErrorExpresionBracket>(
                    ErrorExpresionBracket::BracketNoMatchea,
                )
            } else if p == j2 || contenido@[p - 1] != ':' {
                r == Err::<Vec<char>, ErrorExpresionBracket>(
                    ErrorExpresionBracket::BracketNoMatchea,
                ) && *final(indice) == p + 1
            } else {
                r matches Ok(v) && v@ == contenido@.subrange(j2, p - 1) && *final(indice) == p + 1
            }
        }),
{
    let ghost j2 = *old(indice) as int;
    let mut nombre: Vec<char> = Vec::new();
    proof {
        lema_primer_cierre_cota(contenido@, j2);
    }
    let ghost p = primer_cierre(contenido@, j2);
    let mut cerrado = false;
    while *indice < contenido.len()
        invariant_except_break
            !cerrado,
            j2 <= *indice <= p,
            nombre@ == contenido@.subrange(j2, *indice as int),
        invariant
            j2 == *old(indice) as int,
            p == primer_cierre(contenido@, j2),
            j2 <= p <= contenido@.len(),
            *indice <= contenido@.len(),
            p < contenido@.len() ==> contenido@[p] == ']',
            forall|k: int| j2 <= k < p ==> contenido@[k] != ']',
        ensures
            cerrado ==> p < contenido@.len() && *indice == p + 1 && nombre@ == contenido@.subrange(
                j2,
                p,
            ),
            !cerrado ==> p == contenido@.len() && nombre@ == contenido@.subrange(j2, p),
        decreases contenido@.len() - *indice,
    {
        let c = contenido[*indice];
        *indice = *indice + 1;
        if c == ']' {
            proof {
                assert(*indice - 1 == p);
            }
            cerrado = true;
            break ;
        } else {
            nombre.push(c);
            proof {
                assert(nombre@ =~= contenido@.subrange(j2, *indice as int));
            }
        }
    }
    if !cerrado {
        return Err(ErrorExpresionBracket::BracketNoMatchea);
    }
    let valido = nombre.len() > 0 && nombre[nombre.len() - 1] == ':';
    if !valido {
        return Err(ErrorExpresionBracket::BracketNoMatchea);
    }
    let _ = nombre.pop();
    proof {
        assert(nombre@ =~= contenido@.subrange(j2, p - 1));
    }
    Ok(nombre)
}

/// Handles the character after an inner `[` of the body: a `:` opens a
/// named class whose predicate is added; anything else adds the `[` and
/// that character as literal predicates; at the end of the body only the
/// `[` itself is added.
fn manejar_posible_clase_caracter(
    contenido: &Vec<char>,
    indice: &mut usize,
    caracteres: &mut Vec<ClaseCaracter>,
) -> (r: Result<(), ErrorExpresionBracket>)
    requires
        *old(indice) <= contenido@.len(),
    ensures
        ({
            let j1 = *old(indice) as int;
            if j1 >= contenido@.len() {
                &&& r is Ok
                &&& final(caracteres)@ == old(caracteres)@ + seq![ClaseCaracter::Literal('[')]
                &&& *final(indice) == j1
            } else if contenido@[j1] != ':' {
                &&& r is Ok
                &&& final(caracteres)@ == old(caracteres)@ + seq![
                    ClaseCaracter::Literal('['),
                    ClaseCaracter::Literal(contenido@[j1]),
                ]
                &&& *final(indice) == j1 + 1
            } else {
                let p = primer_cierre(contenido@, j1 + 1);
                if p >= contenido@.len() {
                    r == Err::<(), ErrorExpresionBracket>(ErrorExpresionBracket::BracketNoMatchea)
                        && final(caracteres)@ == old(caracteres)@
                } else if p == j1 + 1 || contenido@[p - 1] != ':' {
                    r == Err::<(), ErrorExpresionBracket>(ErrorExpresionBracket::BracketNoMatchea)
                        && final(caracteres)@ == old(caracteres)@
                } else {
                    match clase_de_nombre(contenido@.subrange(j1 + 1, p - 1)) {
                        Some(cl) => {
                            &&& r is Ok
                            &&& final(caracteres)@ == old(caracteres)@ + seq![cl]
                            &&& *final(indice) == p + 1
                        },
                        None => r == Err::<(), ErrorExpresionBracket>(
                            ErrorExpresionBracket::NombreClaseInvalido,
                        ) && final(caracteres)@ == old(caracteres)@,
                    }
                }
            }
        }),
{
    let ghost antes = caracteres@;
    if *indice < contenido.len() {
        let siguiente_c = copia_caracter(contenido[*indice]);
        if siguiente_c == ':' {
            *indice = *indice + 1;
            let contenido_clase = obtener_contenido_de_clase_caracter(contenido, indice)?;
            let clase_caracter = clase_de_caracteres(&contenido_clase)?;
            caracteres.push(clase_caracter);
            proof {
                assert(caracteres@ =~= antes + seq![clase_caracter]);
            }
        } else {
            caracteres.push(ClaseCaracter::Literal('['));
            caracteres.push(ClaseCaracter::Literal(siguiente_c));
            *indice = *indice + 1;
            proof {
                assert(caracteres@ =~= antes + seq![
                    ClaseCaracter::Literal('['),
                    ClaseCaracter::Literal(siguiente_c),
                ]);
            }
        }
    } else {
        caracteres.push(ClaseCaracter::Literal('['));
        proof {
            assert(caracteres@ =~= antes + seq![ClaseCaracter::Literal('[')]);
        }
    }
    Ok(())
}

/// Handles the first character of the body: a `^` marks the expression as
/// negated, an inner `[` may open a class, anything else is a literal
/// predicate.  An empty body is an error.
fn manejar_primer_caracter_del_contenido(
    contenido: &Vec<char>,
    indice: &mut usize,
    negada: &mut bool,
    clases_caracter: &mut Vec<ClaseCaracter>,
) -> (r: Result<(), ErrorExpresionBracket>)
    requires
        *old(indice) == 0,
        *old(negada) == false,
        old(clases_caracter)@.len() == 0,
    ensures
        contenido@.len() == 0 ==> r == Err::<(), ErrorExpresionBracket>(
            ErrorExpresionBracket::BracketNoMatchea,
        ),
        contenido@.len() > 0 && contenido@[0] == '^' ==> {
            &&& r is Ok
            &&& *final(negada) == true
            &&& final(clases_caracter)@.len() == 0
            &&& *final(indice) == 1
        },
        contenido@.len() > 0 && contenido@[0] != '^' ==> {
            &&& *final(negada) == false
            &&& (match r {
                Ok(_) => *final(indice) <= contenido@.len() && (match parsea_resto(
                    contenido@,
                    *final(indice) as int,
                ) {
                    Ok(resto) => parsea_resto(contenido@, 0) == Ok::<
                        Seq<ClaseCaracter>,
                        ErrorExpresionBracket,
                    >(final(clases_caracter)@ + resto),
                    Err(e) => parsea_resto(contenido@, 0) == Err::<
                        Seq<ClaseCaracter>,
                        ErrorExpresionBracket,
                    >(e),
                }),
                Err(e) => parsea_resto(contenido@, 0) == Err::<
                    Seq<ClaseCaracter>,
                    ErrorExpresionBracket,
                >(e),
            })
        },
{
    if contenido.len() == 0 {
        return Err(ErrorExpresionBracket::BracketNoMatchea);
    }
    let c = copia_caracter(contenido[0]);
    if c == '^' {
        *negada = true;
        *indice = 1;
        Ok(())
    } else if c == '[' {
        *indice = 1;
        let resultado = manejar_posible_clase_caracter(contenido, indice, clases_caracter);
        match resultado {
            Ok(_) => {
                proof {
                    if 1 < contenido@.len() {
                        let lavado = caracter_de(contenido@, 1);
                    }
                    if 2 <= contenido@.len() {
                        lema_primer_cierre_cota(contenido@, 2);
                    }
                    assert(parsea_resto(contenido@, 0) == (if 1 >= contenido@.len() {
                        Ok::<Seq<ClaseCaracter>, ErrorExpresionBracket>(
                            seq![ClaseCaracter::Literal('[')],
                        )
                    } else {
                        parsea_resto(contenido@, 0)
                    }));
                    if 1 >= contenido@.len() {
                        assert(clases_caracter@ =~= seq![ClaseCaracter::Literal('[')]
                            + Seq::<ClaseCaracter>::empty());
                        assert(parsea_resto(contenido@, 1) == Ok::<
                            Seq<ClaseCaracter>,
                            ErrorExpresionBracket,
                        >(Seq::empty()));
                        assert(clases_caracter@ + Seq::<ClaseCaracter>::empty()
                            =~= seq![ClaseCaracter::Literal('[')]);
                    }
                }
                Ok(())
            },
            Err(e) => Err(e),
        }
    } else {
        *indice = 1;
        clases_caracter.push(ClaseCaracter::Literal(c));
        proof {
            assert(clases_caracter@ =~= seq![ClaseCaracter::Literal(contenido@[0])]);
            match parsea_resto(contenido@, 1) {
                Ok(resto) => {
                    assert(parsea_resto(contenido@, 0) == Ok::<
                        Seq<ClaseCaracter>,
                        ErrorExpresionBracket,
                    >(seq![ClaseCaracter::Literal(contenido@[0])] + resto));
                },
                Err(_) => {},
            }
        }
        Ok(())
    }
}

/// Handles the remaining characters of the body, turning each into literal
/// predicates or named classes.
fn manejar_el_resto_de_contenido(
    contenido: &Vec<char>,
    indice: &mut usize,
    caracteres: &mut Vec<ClaseCaracter>,
) -> (r: Result<(), ErrorExpresionBracket>)
    requires
        *old(indice) <= contenido@.len(),
    ensures
        match parsea_resto(contenido@, *old(indice) as int) {
            Ok(clases) => r is Ok && final(caracteres)@ == old(caracteres)@ + clases,
            Err(e) => r == Err::<(), ErrorExpresionBracket>(e),
        },
{
    let ghost j0 = *old(indice) as int;
    let ghost base = old(caracteres)@;
    loop
        invariant
            j0 == *old(indice) as int,
            base == old(caracteres)@,
            *indice <= contenido@.len(),
            base.len() <= caracteres@.len(),
            caracteres@.subrange(0, base.len() as int) == base,
            ({
                let delta = caracteres@.subrange(base.len() as int, caracteres@.len() as int);
                match parsea_resto(contenido@, *indice as int) {
                    Ok(resto) => parsea_resto(contenido@, j0) == Ok::<
                        Seq<ClaseCaracter>,
                        ErrorExpresionBracket,
                    >(delta + resto),
                    Err(e) => parsea_resto(contenido@, j0) == Err::<
                        Seq<ClaseCaracter>,
                        ErrorExpresionBracket,
                    >(e),
                }
            }),
        decreases contenido@.len() - *indice,
    {
        proof {
            assert(caracteres@.subrange(base.len() as int, caracteres@.len() as int) + Seq::<
                ClaseCaracter,
            >::empty() =~= caracteres@.subrange(base.len() as int, caracteres@.len() as int));
        }
        if *indice >= contenido.len() {
            proof {
                assert(caracteres@ =~= base + caracteres@.subrange(
                    base.len() as int,
                    caracteres@.len() as int,
                ));
            }
            return Ok(());
        }
        let ghost j = *indice as int;
        let ghost viejo = caracteres@;
        let ghost delta_antes = caracteres@.subrange(base.len() as int, caracteres@.len() as int);
        let c = copia_caracter(contenido[*indice]);
        if c == '[' {
            *indice = *indice + 1;
            let resultado = manejar_posible_clase_caracter(contenido, indice, caracteres);
            match resultado {
                Ok(_) => {
                    proof {
                        if j + 1 < contenido@.len() {
                            let lavado = caracter_de(contenido@, j + 1);
                        }
                        if j + 2 <= contenido@.len() {
                            lema_primer_cierre_cota(contenido@, j + 2);
                        }
                        assert(forall|i: int|
                            0 <= i < viejo.len() ==> caracteres@[i] == viejo[i]);
                        assert(caracteres@.subrange(0, base.len() as int) =~= base);
                        let delta = caracteres@.subrange(
                            base.len() as int,
                            caracteres@.len() as int,
                        );
                        let paso_clases = caracteres@.subrange(
                            viejo.len() as int,
                            caracteres@.len() as int,
                        );
                        assert(delta =~= delta_antes + paso_clases);
                        assert(caracteres@ =~= viejo + paso_clases);
                        match parsea_resto(contenido@, *indice as int) {
                            Ok(resto) => {
                                if j + 1 >= contenido@.len() {
                                    assert(paso_clases =~= seq![ClaseCaracter::Literal('[')]);
                                    assert(resto =~= Seq::<ClaseCaracter>::empty());
                                    assert(paso_clases + resto =~= seq![
                                        ClaseCaracter::Literal('['),
                                    ]);
                                    assert(parsea_resto(contenido@, j) == Ok::<
                                        Seq<ClaseCaracter>,
                                        ErrorExpresionBracket,
                                    >(seq![ClaseCaracter::Literal('[')]));
                                } else if contenido@[j + 1] == ':' {
                                    let p = primer_cierre(contenido@, j + 2);
                                    match clase_de_nombre(
                                        contenido@.subrange(j + 2, p - 1),
                                    ) {
                                        Some(cl) => {
                                            assert(paso_clases =~= seq![cl]);
                                            assert(parsea_resto(contenido@, j) == Ok::<
                                                Seq<ClaseCaracter>,
                                                ErrorExpresionBracket,
                                            >(seq![cl] + resto));
                                        },
                                        None => {
                                            assert(false);
                                        },
                                    }
                                } else {
                                    assert(paso_clases =~= seq![
                                        ClaseCaracter::Literal('['),
                                        ClaseCaracter::Literal(contenido@[j + 1]),
                                    ]);
                                    assert(parsea_resto(contenido@, j) == Ok::<
                                        Seq<ClaseCaracter>,
                                        ErrorExpresionBracket,
                                    >(seq![
                                        ClaseCaracter::Literal('['),
                                        ClaseCaracter::Literal(contenido@[j + 1]),
                                    ] + resto));
                                }
                                assert(parsea_resto(contenido@, j) == Ok::<
                                    Seq<ClaseCaracter>,
                                    ErrorExpresionBracket,
                                >(paso_clases + resto));
                                assert((delta_antes + paso_clases) + resto =~= delta_antes + (
                                paso_clases + resto));
                            },
                            Err(_) => {},
                        }
                    }
                },
                Err(e) => {
                    return Err(e);
                },
            }
        } else {
            caracteres.push(ClaseCaracter::Literal(c));
            *indice = *indice + 1;
            proof {
                assert(forall|i: int| 0 <= i < viejo.len() ==> caracteres@[i] == viejo[i]);
                assert(caracteres@.subrange(0, base.len() as int) =~= base);
                let delta = caracteres@.subrange(base.len() as int, caracteres@.len() as int);
                assert(delta =~= delta_antes + seq![ClaseCaracter::Literal(contenido@[j])]);
                match parsea_resto(contenido@, *indice as int) {
                    Ok(resto) => {
                        assert(parsea_resto(contenido@, j) == Ok::<
                            Seq<ClaseCaracter>,
                            ErrorExpresionBracket,
                        >(seq![ClaseCaracter::Literal(contenido@[j])] + resto));
                        assert((delta_antes + seq![ClaseCaracter::Literal(contenido@[j])]) + resto
                            =~= delta_antes + (seq![ClaseCaracter::Literal(contenido@[j])]
                            + resto));
                    },
                    Err(_) => {},
                }
            }
        }
    }
}

/// Builds a bracket-expression token from the pattern cursor, which stands
/// on the opening `[`: the body is read up to the matching `]` and parsed
/// into a list of predicates, negated when it starts with `^`.  The token
/// carries the repetition `(1, 1)` and may still be modified once.
pub fn nuevo_token_expresion_bracket(iter_chars: &mut IteradorVecHaciaAtras<char>) -> (r: Result<
    RegexToken,
    ErrorExpresionBracket,
>)
    requires
        old(iter_chars).valido(),
        old(iter_chars).posicion() < old(iter_chars).elementos().len(),
    ensures
        final(iter_chars).elementos() == old(iter_chars).elementos(),
        final(iter_chars).valido(),
        final(iter_chars).posicion() == pos_tras_bracket(
            old(iter_chars).elementos(),
            old(iter_chars).posicion() + 1,
        ),
        ({
            let cs = old(iter_chars).elementos();
            let q = old(iter_chars).posicion() + 1;
            match resultado_bracket(cs, q) {
                Err(e) => r == Err::<RegexToken, ErrorExpresionBracket>(e),
                Ok(par) => {
                    &&& r matches Ok(t)
                    &&& (if par.0 {
                        t.valor matches ValorRegexToken::ExpresionBracketNegada(v) && v@ == par.1
                    } else {
                        t.valor matches ValorRegexToken::ExpresionBracket(v) && v@ == par.1
                    })
                    &&& t.repeticion == RepeticionRegexToken {
                        min: Some(1usize),
                        max: Some(1usize),
                    }
                    &&& t.repeticion_modificable
                },
            }
        }),
{
    let mut clases_caracter: Vec<ClaseCaracter> = Vec::new();
    let mut negada = false;
    let contenido_bracket = obtener_contenido_de_bracket(iter_chars)?;
    if tiene_error_sintaxis(&contenido_bracket) {
        return Err(ErrorExpresionBracket::SintaxisClaseInvalida);
    }
    let mut indice: usize = 0;
    manejar_primer_caracter_del_contenido(
        &contenido_bracket,
        &mut indice,
        &mut negada,
        &mut clases_caracter,
    )?;
    manejar_el_resto_de_contenido(&contenido_bracket, &mut indice, &mut clases_caracter)?;
    if negada {
        Ok(RegexToken::new(
            ValorRegexToken::ExpresionBracketNegada(clases_caracter),
            RepeticionRegexToken::new(Some(1), Some(1)),
        ))
    } else {
        Ok(RegexToken::new(
            ValorRegexToken::ExpresionBracket(clases_caracter),
            RepeticionRegexToken::new(Some(1), Some(1)),
        ))
    }
}

} // verus!
