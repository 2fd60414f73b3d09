//! The search itself: keep the lines that match a pattern.
//!
//! The engine performs no input or output.  A line source hands this
//! function the lines it has read; the function compiles the pattern once
//! and keeps, in order, exactly the lines some alternative matches.

use vstd::prelude::*;
use crate::expresion::Expresion;
use crate::regex::{ErrorCompilacion, Regex, compila, modelo_expresiones, regex_matchea};

verus! {

/// The lines of the list that the expression matches, in their original
/// order.
pub open spec fn filtra_lineas(es: Seq<Expresion>, lineas: Seq<String>) -> Seq<String>
    decreases lineas.len(),
{
    if lineas.len() == 0 {
        Seq::empty()
    } else {
        let previas = filtra_lineas(es, lineas.drop_last());
        if regex_matchea(es, lineas.last()@) {
            previas.push(lineas.last())
        } else {
            previas
        }
    }
}

/// Compiles the pattern and keeps the lines it matches, in their original
/// order.  A pattern that does not compile yields its compilation error.
pub fn egrep(patron: &str, lineas: &Vec<String>) -> (r: Result<Vec<String>, ErrorCompilacion>)
    ensures
        match compila(patron@) {
            Err(e) => r == Err::<Vec<String>, ErrorCompilacion>(e),
            Ok(m) => r matches Ok(ls) && (exists|es: Seq<Expresion>|
                modelo_expresiones(es) == m && ls@ == filtra_lineas(es, lineas@)),
        },
{
    let regex = match Regex::new(patron) {
        Ok(rx) => rx,
        Err(e) => {
            return Err(e);
        },
    };
    let mut lineas_que_matchean: Vec<String> = Vec::new();
    let mut i: usize = 0;
    while i < lineas.len()
        invariant
            i <= lineas@.len(),
            lineas_que_matchean@ == filtra_lineas(
                regex.expresiones@,
                lineas@.subrange(0, i as int),
            ),
        decreases lineas@.len() - i,
    {
        let linea = &lineas[i];
        proof {
            assert(lineas@.subrange(0, i + 1).drop_last() =~= lineas@.subrange(0, i as int));
            assert(lineas@.subrange(0, i + 1).last() == lineas@[i as int]);
        }
        if regex.matchea(linea.as_str()) {
            lineas_que_matchean.push(linea.clone());
        }
        i = i + 1;
    }
    proof {
        assert(lineas@.subrange(0, lineas@.len() as int) =~= lineas@);
        assert(modelo_expresiones(regex.expresiones@) == compila(patron@)->Ok_0
            && lineas_que_matchean@ == filtra_lineas(regex.expresiones@, lineas@));
    }
    Ok(lineas_que_matchean)
}

} // verus!
