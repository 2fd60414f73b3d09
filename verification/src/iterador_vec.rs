//! A bidirectional cursor over a vector.
//!
//! The cursor starts before the first element; `next` yields the following
//! element and advances, `prev` steps back by one.  Once the end has been
//! reached, further calls to `next` keep yielding nothing without moving
//! deeper, so that a later `prev` always pairs with the most recent
//! successful `next`.

use vstd::prelude::*;

verus! {

/// One backward step of a cursor position; it saturates at the origin.
pub open spec fn retrocede(c: int) -> int {
    if c <= 0 {
        c
    } else {
        c - 1
    }
}

/// `n` backward steps of a cursor position.
pub open spec fn retrocede_n(c: int, n: nat) -> int
    decreases n,
{
    if n == 0 {
        c
    } else {
        retrocede_n(retrocede(c), (n - 1) as nat)
    }
}

/// Backward steps peel off one at a time from either side.
pub proof fn lema_retrocede_n_paso(c: int, n: nat)
    ensures
        retrocede_n(c, n + 1) == retrocede(retrocede_n(c, n)),
    decreases n,
{
    assert(retrocede_n(c, n + 1) == retrocede_n(retrocede(c), n));
    if n > 0 {
        lema_retrocede_n_paso(retrocede(c), (n - 1) as nat);
        assert(retrocede_n(c, n) == retrocede_n(retrocede(c), (n - 1) as nat));
    }
}

/// Backward steps never take a non-negative position below the origin.
pub proof fn lema_retrocede_n_no_negativo(c: int, n: nat)
    requires
        c >= 0,
    ensures
        retrocede_n(c, n) >= 0,
    decreases n,
{
    if n > 0 {
        lema_retrocede_n_no_negativo(retrocede(c), (n - 1) as nat);
    }
}

/// Backward steps that stay at or above the origin subtract exactly.
pub proof fn lema_retrocede_n_exacta(c: int, n: nat)
    requires
        c - n >= 0,
    ensures
        retrocede_n(c, n) == c - n,
    decreases n,
{
    if n > 0 {
        lema_retrocede_n_exacta(c - 1, (n - 1) as nat);
    }
}

/// The elements of a cursor come from a vector, so their number fits the
/// machine integer.
pub proof fn lema_largo_elementos<'a, T>(it: IteradorVecHaciaAtras<'a, T>)
    ensures
        it.elementos().len() <= usize::MAX,
{
    broadcast use vstd::std_specs::vec::axiom_spec_len;

    assert(vstd::std_specs::vec::spec_vec_len(it.vector) == it.vector@.len());
}

/// A cursor over a borrowed vector that can move both forwards and
/// backwards.
#[derive(Debug)]
pub struct IteradorVecHaciaAtras<'a, T> {
    /// Index of the element most recently yielded; `None` before the first.
    pub indice_actual: Option<usize>,
    /// The elements walked over.
    pub vector: &'a Vec<T>,
}

impl<'a, T> IteradorVecHaciaAtras<'a, T> {
    /// The elements the cursor walks over.
    pub open spec fn elementos(self) -> Seq<T> {
        self.vector@
    }

    /// The current position: `-1` before the first element, otherwise the
    /// index of the element most recently yielded by `next`.
    pub open spec fn posicion(self) -> int {
        match self.indice_actual {
            None => -1,
            Some(i) => i as int,
        }
    }

    /// The position lies between the start mark and the end of the vector.
    pub open spec fn valido(self) -> bool {
        -1 <= self.posicion() <= self.elementos().len()
    }

    /// Builds a cursor positioned before the first element of the vector.
    pub fn new(vector: &'a Vec<T>) -> (r: IteradorVecHaciaAtras<'a, T>)
        ensures
            r.elementos() == vector@,
            r.posicion() == -1,
            r.valido(),
    {
        IteradorVecHaciaAtras { indice_actual: None, vector }
    }

    /// Advances the cursor and yields the element it lands on, or nothing at
    /// the end of the vector.  At the end the position saturates, so a
    /// subsequent `prev` revisits the last element.
    pub fn next(&mut self) -> (r: Option<&'a T>)
        ensures
            final(self).elementos() == old(self).elementos(),
            ({
                let p = old(self).posicion();
                let n = old(self).elementos().len() as int;
                if p + 1 < n {
                    &&& final(self).posicion() == p + 1
                    &&& r matches Some(x) && *x == old(self).elementos()[p + 1]
                } else {
                    &&& final(self).posicion() == n
                    &&& r is None
                }
            }),
            old(self).valido() ==> final(self).valido(),
    {
        let nuevo_indice = match self.indice_actual {
            None => 0,
            Some(i) => {
                if i >= self.vector.len() {
                    self.vector.len()
                } else {
                    i + 1
                }
            },
        };
        self.indice_actual = Some(nuevo_indice);
        if nuevo_indice < self.vector.len() {
            Some(&self.vector[nuevo_indice])
        } else {
            None
        }
    }

    /// Steps the cursor back by one and yields the element it lands on; does
    /// nothing at the origin.
    pub fn prev(&mut self) -> (r: Option<&'a T>)
        ensures
            final(self).elementos() == old(self).elementos(),
            ({
                let p = old(self).posicion();
                let n = old(self).elementos().len() as int;
                if p <= 0 {
                    &&& *final(self) == *old(self)
                    &&& r is None
                } else {
                    &&& final(self).posicion() == p - 1
                    &&& (if p - 1 < n {
                        r matches Some(x) && *x == old(self).elementos()[p - 1]
                    } else {
                        r is None
                    })
                }
            }),
            old(self).valido() ==> final(self).valido(),
    {
        let nuevo_indice = match self.indice_actual {
            None => {
                return None;
            },
            Some(0) => {
                return None;
            },
            Some(i) => i - 1,
        };
        self.indice_actual = Some(nuevo_indice);
        if nuevo_indice < self.vector.len() {
            Some(&self.vector[nuevo_indice])
        } else {
            None
        }
    }
}

} // verus!
